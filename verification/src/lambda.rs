//! Lambdas: the function a lambda becomes, what it captures, and the names its
//! body sees.

use crate::expr;
use crate::expr::{FnNames, VarNames};
use crate::ir::{FnId, VarId};
use crate::locals;
use crate::locals::Locals;
use crate::parse::node_text;
use crate::scope;
use crate::scope::NameScope;
use crate::spelling;
use crate::syntax::SyntaxTree;
use crate::text;
use crate::text::{append, begins, chars_of, decimal_chars, string_of, trimmed, trimmed_start};
use vstd::prelude::*;

verus! {

/// The name of the function that a lambda becomes: under the function around
/// it, or the unit, by where it stands.
pub open spec fn name_of_lambda(owner: Option<Seq<char>>, line: nat, col: nat) -> Seq<char> {
    (match owner {
        Some(name) => name,
        None => "<tu>"@,
    }) + "::$lambda@"@ + text::decimal(line) + ":"@ + text::decimal(col)
}

/// The name of the function that a lambda becomes.
pub fn lambda_name(owner: Option<&str>, line: u32, col: u32) -> (r: String)
    ensures
        r@ == name_of_lambda(
            match owner {
                Some(o) => Some(o@),
                None => None,
            },
            line as nat,
            col as nat,
        ),
{
    let mut out = match owner {
        Some(o) => chars_of(o),
        None => chars_of("<tu>"),
    };
    append(&mut out, &chars_of("::$lambda@"));
    append(&mut out, &decimal_chars(line));
    append(&mut out, &chars_of(":"));
    append(&mut out, &decimal_chars(col));
    string_of(&out)
}

/// The function that a lambda was lowered to before, if it was: the one in scope
/// under the name it has by where it stands.
pub fn known_lambda(fns: &FnNames, owner: Option<&str>, line: u32, col: u32) -> (r: Option<FnId>)
    ensures
        r == fns.spec_in_scope(
            name_of_lambda(
                match owner {
                    Some(o) => Some(o@),
                    None => None,
                },
                line as nat,
                col as nat,
            ),
        ),
{
    let name = lambda_name(owner, line, col);
    fns.resolve_in_scope(name.as_str())
}

proof fn lemma_function_is_found(
    v: Seq<(String, FnId)>,
    name: Seq<char>,
    id: FnId,
    at: int,
    k: int,
)
    requires
        0 <= k <= at < v.len(),
        v[at].0@ == name,
        forall|j: int| 0 <= j < v.len() && (#[trigger] v[j]).0@ == name ==> v[j].1 == id,
    ensures
        expr::function_from(v, name, k) == Some(id),
    decreases at - k,
{
    if k < at && v[k].0@ != name {
        lemma_function_is_found(v, name, id, at, k + 1);
    }
}

/// A lambda is lowered once: as soon as its function is in scope under its name,
/// and no other is, meeting the lambda again gives that function.
pub proof fn law_a_lambda_is_lowered_once(
    fns: FnNames,
    owner: Option<Seq<char>>,
    line: nat,
    col: nat,
    id: FnId,
    at: int,
)
    requires
        0 <= at < fns.in_scope@.len(),
        fns.in_scope@[at].0@ == name_of_lambda(owner, line, col),
        forall|j: int|
            0 <= j < fns.in_scope@.len() && (#[trigger] fns.in_scope@[j]).0@ == name_of_lambda(
                owner,
                line,
                col,
            ) ==> fns.in_scope@[j].1 == id,
    ensures
        fns.spec_in_scope(name_of_lambda(owner, line, col)) == Some(id),
{
    lemma_function_is_found(
        fns.in_scope@,
        name_of_lambda(owner, line, col),
        id,
        at,
        0,
    );
}

/// What is set aside while the body of a lambda is lowered.
#[derive(Debug, PartialEq, Eq)]
pub struct Around {
    /// The function around the lambda.
    pub current: Option<FnId>,
    pub class_ctx: Option<String>,
    pub in_function: bool,
    pub locals: Locals,
}

impl VarNames {
    /// Enter the body of a lambda that became the function `id`: names stand for
    /// what it sees.
    pub fn enter_lambda(
        &mut self,
        current: &mut Option<FnId>,
        scope: &NameScope,
        id: FnId,
        locals: Locals,
    ) -> (r: Around)
        ensures
            *final(self) == (VarNames { locals, in_function: true, ..*old(self) }),
            *final(current) == Some(id),
            r.current == *old(current),
            scope::opt_view(r.class_ctx) == scope::opt_view(scope.class_ctx),
            r.in_function == old(self).in_function,
            r.locals == old(self).locals,
    {
        let class_ctx = match &scope.class_ctx {
            Some(c) => Some(c.clone()),
            None => None,
        };
        let mut own = locals;
        std::mem::swap(&mut own, &mut self.locals);
        let r = Around { current: *current, class_ctx, in_function: self.in_function, locals: own };
        self.in_function = true;
        *current = Some(id);
        r
    }

    /// Leave the body of a lambda: names stand for what they stood for around it.
    pub fn leave_lambda(
        &mut self,
        current: &mut Option<FnId>,
        scope: &mut NameScope,
        around: Around,
    )
        ensures
            *final(self) == (VarNames {
                locals: around.locals,
                in_function: around.in_function,
                ..*old(self)
            }),
            *final(current) == around.current,
            *final(scope) == (NameScope { class_ctx: around.class_ctx, ..*old(scope) }),
    {
        self.locals = around.locals;
        self.in_function = around.in_function;
        *current = around.current;
        scope.class_ctx = around.class_ctx;
    }
}

/// The body of a lambda leaves no trace in how names are read around it: whatever
/// it did to the locals, the function and the class that names are looked up in,
/// those from before it was entered are back once it is left.
pub proof fn law_a_lambda_keeps_what_is_around_it(
    before: VarNames,
    current: Option<FnId>,
    scope: NameScope,
    around: Around,
    inside: VarNames,
    scope_inside: NameScope,
    after: VarNames,
    current_after: Option<FnId>,
    scope_after: NameScope,
)
    requires
        around.current == current,
        scope::opt_view(around.class_ctx) == scope::opt_view(scope.class_ctx),
        around.in_function == before.in_function,
        around.locals == before.locals,
        after == (VarNames {
            locals: around.locals,
            in_function: around.in_function,
            ..inside
        }),
        current_after == around.current,
        scope_after == (NameScope { class_ctx: around.class_ctx, ..scope_inside }),
    ensures
        current_after == current,
        after.locals == before.locals,
        after.in_function == before.in_function,
        scope::opt_view(scope_after.class_ctx) == scope::opt_view(scope.class_ctx),
{
}

/// The first child of `n`, from position `k`, that is or may hold a parameter
/// list.
pub open spec fn parameters_near(t: SyntaxTree, n: int, k: int) -> Option<usize>
    decreases t.children(n).len() - k,
{
    if k < 0 || k >= t.children(n).len() {
        None
    } else {
        let c = t.children(n)[k];
        if t.spec_kind(c as int) == "parameter_list"@ || t.spec_kind(c as int)
            == "abstract_function_declarator"@ {
            Some(c)
        } else {
            parameters_near(t, n, k + 1)
        }
    }
}

/// The parameter list of a lambda.
pub open spec fn parameters_of(t: SyntaxTree, n: int) -> Option<usize> {
    match parameters_near(t, n, 0) {
        Some(c) => if t.spec_kind(c as int) == "parameter_list"@ {
            Some(c)
        } else {
            t.of_kind(c as int, "parameter_list"@)
        },
        None => None,
    }
}

/// The parameter list of a lambda, if it has one.
pub fn lambda_parameters(tree: &SyntaxTree, node: usize) -> (r: Option<usize>)
    requires
        tree.wf(),
        node < tree.len(),
    ensures
        r == parameters_of(*tree, node as int),
        r matches Some(p) ==> p < tree.len(),
{
    let mut k: usize = 0;
    while k < tree.kids[node].len()
        invariant
            tree.wf(),
            node < tree.len(),
            k <= tree.children(node as int).len(),
            parameters_near(*tree, node as int, 0) == parameters_near(
                *tree,
                node as int,
                k as int,
            ),
        decreases tree.children(node as int).len() - k,
    {
        let c = tree.kids[node][k];
        assert(c == tree.children(node as int)[k as int]);
        if tree.kind_is(c, "parameter_list") {
            return Some(c);
        }
        if tree.kind_is(c, "abstract_function_declarator") {
            return tree.child_of_kind(c, "parameter_list");
        }
        k += 1;
    }
    None
}

/// A capture that is initialized: the name it binds, whether as a reference,
/// and the nodes of its name and its value.
#[derive(Debug, PartialEq, Eq)]
pub struct InitCapture {
    pub name: String,
    pub is_ref: bool,
    pub left: usize,
    pub right: usize,
}

pub struct InitView {
    pub name: Seq<char>,
    pub is_ref: bool,
    pub left: usize,
    pub right: usize,
}

impl InitCapture {
    pub open spec fn view(&self) -> InitView {
        InitView { name: self.name@, is_ref: self.is_ref, left: self.left, right: self.right }
    }
}

/// What a lambda captures.
#[derive(Debug, PartialEq, Eq)]
pub struct Captures {
    pub this: bool,
    /// Everything in scope.
    pub all: bool,
    /// The names it lists.
    pub named: Vec<String>,
    pub inits: Vec<InitCapture>,
}

pub struct CapturesView {
    pub this: bool,
    pub all: bool,
    pub named: Seq<Seq<char>>,
    pub inits: Seq<InitView>,
}

impl Captures {
    pub open spec fn view(&self) -> CapturesView {
        CapturesView {
            this: self.this,
            all: self.all,
            named: spelling::views(self.named@),
            inits: self.inits@.map_values(|i: InitCapture| i@),
        }
    }
}

/// The captures with what one part of the list adds. Capturing everything
/// captures `this` where there is one.
pub open spec fn with_capture(
    s: CapturesView,
    t: SyntaxTree,
    source: Seq<char>,
    c: int,
    has_this: bool,
) -> CapturesView {
    let kind = t.spec_kind(c);
    if kind == "this"@ {
        CapturesView { this: true, ..s }
    } else if kind == "lambda_default_capture"@ {
        CapturesView { all: true, this: s.this || has_this, ..s }
    } else if kind == "identifier"@ {
        CapturesView { named: s.named.push(t.text(source, c)), ..s }
    } else if kind == "lambda_capture_initializer"@ {
        match (t.fielded(c, "left"@), t.fielded(c, "right"@)) {
            (Some(left), Some(right)) => CapturesView {
                inits: s.inits.push(
                    InitView {
                        name: text::trim(t.text(source, left as int)),
                        is_ref: text::starts_with(text::trim_start(t.text(source, c)), "&"@),
                        left,
                        right,
                    },
                ),
                ..s
            },
            _ => s,
        }
    } else {
        s
    }
}

/// The captures of the first `k` parts of the list.
pub open spec fn captures_upto(
    t: SyntaxTree,
    source: Seq<char>,
    list: int,
    has_this: bool,
    k: int,
) -> CapturesView
    decreases k,
{
    if k <= 0 {
        CapturesView { this: false, all: false, named: seq![], inits: seq![] }
    } else {
        with_capture(
            captures_upto(t, source, list, has_this, k - 1),
            t,
            source,
            t.children(list)[k - 1] as int,
            has_this,
        )
    }
}

/// What a lambda captures.
pub open spec fn captures_of(t: SyntaxTree, source: Seq<char>, n: int, has_this: bool) -> CapturesView {
    match t.of_kind(n, "lambda_capture_specifier"@) {
        Some(list) => captures_upto(
            t,
            source,
            list as int,
            has_this,
            t.children(list as int).len() as int,
        ),
        None => captures_upto(t, source, n, has_this, 0),
    }
}

fn add_capture(
    s: &mut Captures,
    source: &str,
    tree: &SyntaxTree,
    c: usize,
    has_this: bool,
)
    requires
        tree.fits(source@),
        c < tree.len(),
    ensures
        final(s)@ == with_capture(old(s)@, *tree, source@, c as int, has_this),
{
    let ghost before = s@;
    if tree.kind_is(c, "this") {
        s.this = true;
    } else if tree.kind_is(c, "lambda_default_capture") {
        s.all = true;
        if has_this {
            s.this = true;
        }
    } else if tree.kind_is(c, "identifier") {
        let ghost names = s.named@;
        let own = string_of(&chars_of(node_text(source, tree, c)));
        s.named.push(own);
        assert(spelling::views(s.named@) =~= spelling::views(names).push(own@));
    } else if tree.kind_is(c, "lambda_capture_initializer") {
        match (tree.child_by_field_name(c, "left"), tree.child_by_field_name(c, "right")) {
            (Some(left), Some(right)) => {
                let whole = trimmed_start(&chars_of(node_text(source, tree, c)));
                let is_ref = begins(&whole, &chars_of("&"));
                let name = string_of(&trimmed(&chars_of(node_text(source, tree, left))));
                let ghost inits = s.inits@;
                let own = InitCapture { name, is_ref, left, right };
                s.inits.push(own);
                assert(s@.inits =~= before.inits.push(own@));
            },
            _ => {},
        }
    }
}

/// What a lambda captures. `has_this` tells whether there is a `this` around
/// it.
pub fn lambda_captures(source: &str, tree: &SyntaxTree, node: usize, has_this: bool) -> (r: Captures)
    requires
        tree.fits(source@),
        node < tree.len(),
    ensures
        r@ == captures_of(*tree, source@, node as int, has_this),
{
    let mut out = Captures { this: false, all: false, named: Vec::new(), inits: Vec::new() };
    proof {
        assert(out@.named =~= seq![]);
        assert(out@.inits =~= seq![]);
    }
    match tree.child_of_kind(node, "lambda_capture_specifier") {
        Some(list) => {
            let mut k: usize = 0;
            while k < tree.kids[list].len()
                invariant
                    tree.fits(source@),
                    list < tree.len(),
                    k <= tree.children(list as int).len(),
                    out@ == captures_upto(*tree, source@, list as int, has_this, k as int),
                decreases tree.children(list as int).len() - k,
            {
                let c = tree.kids[list][k];
                assert(c == tree.children(list as int)[k as int]);
                add_capture(&mut out, source, tree, c, has_this);
                k += 1;
            }
        },
        None => {},
    }
    out
}

/// The bindings with the pairs bound in turn.
pub open spec fn bound_in_turn(m: Map<Seq<char>, VarId>, pairs: Seq<(String, VarId)>, k: int) -> Map<
    Seq<char>,
    VarId,
>
    decreases k,
{
    if k <= 0 {
        m
    } else {
        bound_in_turn(m, pairs, k - 1).insert(pairs[k - 1].0@, pairs[k - 1].1)
    }
}

/// The names a lambda's body sees: what it captures of those around it, then
/// its initialized captures, then `this` where it captures it, then its
/// parameters.
pub open spec fn body_names(
    around: Map<Seq<char>, VarId>,
    c: CapturesView,
    inits: Seq<(String, VarId)>,
    params: Seq<(String, VarId)>,
) -> Map<Seq<char>, VarId> {
    let own = bound_in_turn(
        locals::captured_of(around, c.all, c.named),
        inits,
        inits.len() as int,
    );
    let with_this = if c.this && around.dom().contains("this"@) {
        own.insert("this"@, around["this"@])
    } else {
        own
    };
    bound_in_turn(with_this, params, params.len() as int)
}

fn bind_all(out: &mut Locals, pairs: &Vec<(String, VarId)>)
    requires
        old(out).wf(),
    ensures
        final(out).wf(),
        final(out)@ == bound_in_turn(old(out)@, pairs@, pairs@.len() as int),
{
    let ghost first = out@;
    let mut k: usize = 0;
    while k < pairs.len()
        invariant
            k <= pairs@.len(),
            out.wf(),
            out@ == bound_in_turn(first, pairs@, k as int),
        decreases pairs@.len() - k,
    {
        out.set(pairs[k].0.clone(), pairs[k].1);
        k += 1;
    }
}

/// The names a lambda's body starts with. `inits` are the variables its
/// initialized captures got, `params` those of its parameters.
pub fn lambda_locals(
    around: &Locals,
    captures: &Captures,
    inits: &Vec<(String, VarId)>,
    params: &Vec<(String, VarId)>,
) -> (r: Locals)
    requires
        around.wf(),
    ensures
        r.wf(),
        r@ == body_names(around@, captures@, inits@, params@),
{
    let mut out = around.captured(captures.all, &captures.named);
    bind_all(&mut out, inits);
    if captures.this {
        match around.get("this") {
            Some(v) => {
                let name = string_of(&chars_of("this"));
                out.set(name, v);
            },
            None => {},
        }
    }
    bind_all(&mut out, params);
    out
}

/// The variable that an initialized capture by reference stands for: the one
/// its value names, which `found` is.
pub open spec fn aliases(t: SyntaxTree, c: InitView, found: Option<VarId>) -> Option<VarId> {
    if c.is_ref && t.spec_kind(c.right as int) == "identifier"@ {
        found
    } else {
        None
    }
}

/// The variable that an initialized capture stands for, where it is a
/// reference to one; else it is a variable of its own.
pub fn captured_alias(tree: &SyntaxTree, c: &InitCapture, found: Option<VarId>) -> (r: Option<VarId>)
    requires
        c.right < tree.len(),
        tree.wf(),
    ensures
        r == aliases(*tree, c@, found),
{
    if c.is_ref && tree.kind_is(c.right, "identifier") {
        found
    } else {
        None
    }
}

/// A lambda that captures neither everything nor a name sees no variable of
/// that name from around it, unless a capture or parameter of its own has it.
pub proof fn law_bodies_see_only_what_is_captured(
    around: Map<Seq<char>, VarId>,
    c: CapturesView,
    inits: Seq<(String, VarId)>,
    params: Seq<(String, VarId)>,
    name: Seq<char>,
)
    requires
        !c.all,
        !c.named.contains(name),
        name != "this"@,
        forall|k: int| 0 <= k < inits.len() ==> (#[trigger] inits[k]).0@ != name,
        forall|k: int| 0 <= k < params.len() ==> (#[trigger] params[k]).0@ != name,
    ensures
        !body_names(around, c, inits, params).dom().contains(name),
{
    let first = locals::captured_of(around, c.all, c.named);
    lemma_not_bound(first, inits, name, inits.len() as int);
    let own = bound_in_turn(first, inits, inits.len() as int);
    let with_this = if c.this && around.dom().contains("this"@) {
        own.insert("this"@, around["this"@])
    } else {
        own
    };
    lemma_not_bound(with_this, params, name, params.len() as int);
}

proof fn lemma_not_bound(
    m: Map<Seq<char>, VarId>,
    pairs: Seq<(String, VarId)>,
    name: Seq<char>,
    k: int,
)
    requires
        0 <= k <= pairs.len(),
        !m.dom().contains(name),
        forall|j: int| 0 <= j < pairs.len() ==> (#[trigger] pairs[j]).0@ != name,
    ensures
        !bound_in_turn(m, pairs, k).dom().contains(name),
    decreases k,
{
    if k > 0 {
        lemma_not_bound(m, pairs, name, k - 1);
        assert(pairs[k - 1].0@ != name);
    }
}

/// A parameter hides whatever the lambda captures under its name.
pub proof fn law_parameters_hide_captures(
    around: Map<Seq<char>, VarId>,
    c: CapturesView,
    inits: Seq<(String, VarId)>,
    params: Seq<(String, VarId)>,
)
    requires
        params.len() > 0,
    ensures
        body_names(around, c, inits, params).dom().contains(params.last().0@),
        body_names(around, c, inits, params)[params.last().0@] == params.last().1,
{
}

/// Two lambdas of one function have one name only where they stand in one place:
/// a lambda that is lowered again is found by its name, and no other is.
pub proof fn law_lambdas_are_told_by_their_place(
    owner: Option<Seq<char>>,
    line: nat,
    col: nat,
    other_line: nat,
    other_col: nat,
)
    requires
        name_of_lambda(owner, line, col) == name_of_lambda(owner, other_line, other_col),
    ensures
        line == other_line,
        col == other_col,
{
    reveal_strlit(":");
    let base = (match owner {
        Some(name) => name,
        None => "<tu>"@,
    }) + "::$lambda@"@;
    let n = base.len() as int;
    let x = name_of_lambda(owner, line, col);
    let y = name_of_lambda(owner, other_line, other_col);
    let l = text::decimal(line);
    let m = text::decimal(other_line);
    text::lemma_decimal(line);
    text::lemma_decimal(other_line);
    assert(x[n + l.len()] == ':');
    assert(y[n + m.len()] == ':');
    if l.len() < m.len() {
        assert(y[n + l.len()] == m[l.len() as int]);
    }
    if m.len() < l.len() {
        assert(x[n + m.len()] == l[m.len() as int]);
    }
    assert(l =~= x.subrange(n, n + l.len()));
    assert(m =~= y.subrange(n, n + m.len()));
    text::lemma_decimal_tells(line, other_line);
    let at = n + l.len() + 1;
    assert(text::decimal(col) =~= x.subrange(at, x.len() as int));
    assert(text::decimal(other_col) =~= y.subrange(at, y.len() as int));
    text::lemma_decimal_tells(col, other_col);
}

} // verus!
