//! Parsing a text into its syntax tree, and the errors that recovery left in it.

use crate::syntax;
use crate::syntax::{build_tree, is_listing, slice, RowView, SyntaxRow, SyntaxTree};
use vstd::prelude::*;

verus! {

/// The grammar a text is parsed with.
#[derive(Debug, Clone, Copy, PartialEq, Eq, Structural)]
pub enum SourceLang {
    C,
    Cpp,
}

impl SourceLang {
    /// The grammar for a path, given whether it is spelled as a C++ source and
    /// whether as a C++ header.
    pub fn from_path(is_cpp_path: bool, is_cpp_header_path: bool) -> (r: SourceLang)
        ensures
            r == (if is_cpp_path || is_cpp_header_path {
                SourceLang::Cpp
            } else {
                SourceLang::C
            }),
    {
        if is_cpp_path || is_cpp_header_path {
            SourceLang::Cpp
        } else {
            SourceLang::C
        }
    }
}

#[verifier::external_type_specification]
#[verifier::external_body]
pub struct ExTree(tree_sitter::Tree);

/// The nodes of a parsed tree, in preorder.
pub uninterp spec fn tree_rows(tree: tree_sitter::Tree) -> Seq<RowView>;

/// What a parse of a text finds: the nodes in preorder, or nothing.
pub uninterp spec fn parsed_rows(source: Seq<char>, cpp: bool) -> Option<Seq<RowView>>;

/// `tree_sitter::Parser::parse` with the C or the C++ grammar set: what it
/// finds depends on the text and the grammar alone. Both grammars are of a
/// version that the parser runs, so that setting one never fails.
#[verifier::external_body]
fn parse_tree(source: &str, lang: SourceLang) -> (r: Option<tree_sitter::Tree>)
    ensures
        match r {
            Some(tree) => parsed_rows(source@, lang == SourceLang::Cpp) == Some(tree_rows(tree)),
            None => parsed_rows(source@, lang == SourceLang::Cpp) is None,
        },
{
    let mut parser = tree_sitter::Parser::new();
    let grammar = match lang {
        SourceLang::C => tree_sitter_c::LANGUAGE,
        SourceLang::Cpp => tree_sitter_cpp::LANGUAGE,
    };
    parser.set_language(&grammar.into()).expect("failed to set the language");
    parser.parse(source, None)
}

/// `tree_sitter::Node::descendant_count` of the root counts all nodes.
#[verifier::external_body]
fn node_count(tree: &tree_sitter::Tree) -> (n: usize)
    ensures
        n == tree_rows(*tree).len(),
{
    tree.root_node().descendant_count()
}

/// `tree_sitter::TreeCursor::goto_descendant` moves to the node at a position
/// of the preorder; the row holds what the node and the cursor say of it.
#[verifier::external_body]
fn node_row(tree: &tree_sitter::Tree, i: usize) -> (row: SyntaxRow)
    requires
        i < tree_rows(*tree).len(),
    ensures
        row@ == tree_rows(*tree)[i as int],
{
    let mut cursor = tree.walk();
    cursor.goto_descendant(i);
    let node = cursor.node();
    SyntaxRow {
        kind: node.kind().to_string(),
        field: cursor.field_name().map(|f| f.to_string()),
        start: node.start_byte(),
        end: node.end_byte(),
        depth: cursor.depth(),
        is_named: node.is_named(),
        is_missing: node.is_missing(),
        is_error: node.is_error(),
        has_error: node.has_error(),
    }
}

/// A parsed text and its tree.
#[derive(Debug, PartialEq, Eq)]
pub struct ParseResult {
    pub tree: SyntaxTree,
    pub source: String,
}

pub open spec fn no_tree_error() -> Seq<char> {
    "tree-sitter returned no tree"@
}

/// The parse of a text is a tree over it.
pub open spec fn parses(source: Seq<char>, lang: SourceLang) -> bool {
    parsed_rows(source, lang == SourceLang::Cpp) matches Some(rows) && syntax::preorder(rows)
        && syntax::covers(rows, source)
}

/// The rows of a tree, in preorder.
fn all_rows(tree: &tree_sitter::Tree) -> (rows: Vec<SyntaxRow>)
    ensures
        syntax::row_views(rows@) == tree_rows(*tree),
{
    let n = node_count(tree);
    let mut rows: Vec<SyntaxRow> = Vec::new();
    let mut i: usize = 0;
    while i < n
        invariant
            i <= n,
            n == tree_rows(*tree).len(),
            syntax::row_views(rows@) == tree_rows(*tree).take(i as int),
        decreases n - i,
    {
        let row = node_row(tree, i);
        let ghost before = rows@;
        rows.push(row);
        assert(syntax::row_views(rows@) =~= syntax::row_views(before).push(row@));
        i += 1;
        assert(tree_rows(*tree).take(i as int) =~= tree_rows(*tree).take(i - 1).push(
            tree_rows(*tree)[i - 1],
        ));
    }
    assert(tree_rows(*tree).take(i as int) =~= tree_rows(*tree));
    rows
}

/// Parse with the grammar matching `lang`. The tree is the one that the parser
/// found; there is an error exactly where it found none over the text.
pub fn parse_source_with_lang(source: &str, lang: SourceLang) -> (r: Result<ParseResult, String>)
    ensures
        r is Ok <==> parses(source@, lang),
        match r {
            Ok(p) => {
                &&& p.source@ == source@
                &&& p.tree.is_tree_of(parsed_rows(source@, lang == SourceLang::Cpp)->0)
                &&& p.tree.fits(p.source@)
            },
            Err(e) => e@ == no_tree_error(),
        },
{
    match parse_tree(source, lang) {
        Some(tree) => {
            let rows = all_rows(&tree);
            if is_listing(&rows, source) {
                Ok(ParseResult { tree: build_tree(rows), source: source.to_owned() })
            } else {
                Err("tree-sitter returned no tree".to_owned())
            }
        },
        None => Err("tree-sitter returned no tree".to_owned()),
    }
}

pub fn parse_c_source(source: &str) -> (r: Result<ParseResult, String>)
    ensures
        r is Ok <==> parses(source@, SourceLang::C),
        match r {
            Ok(p) => {
                &&& p.source@ == source@
                &&& p.tree.is_tree_of(parsed_rows(source@, false)->0)
                &&& p.tree.fits(p.source@)
            },
            Err(e) => e@ == no_tree_error(),
        },
{
    parse_source_with_lang(source, SourceLang::C)
}

/// The text that a node covers.
pub fn node_text<'a>(source: &'a str, tree: &SyntaxTree, node: usize) -> (r: &'a str)
    requires
        tree.fits(source@),
        node < tree.len(),
    ensures
        r@ == tree.text(source@, node as int),
{
    let ghost row = tree@[node as int];
    assert(syntax::in_text(row, source@));
    slice(source, tree.rows[node].start, tree.rows[node].end)
}

/// How deep the walks over parse errors go.
pub const MAX_PARSE_WALK_DEPTH: u32 = 512;

/// The declarator that the grammars want before a bit-field clause and that an
/// unnamed bit-field has none of: recovery put it there, the source is right.
pub open spec fn benign(t: SyntaxTree, n: int) -> bool {
    &&& t.rows@[n].is_missing
    &&& t.spec_kind(n) == "field_identifier"@
    &&& t.next_named(n) matches Some(s) && t.spec_kind(s as int) == "bitfield_clause"@
    &&& t.spec_parent(n) matches Some(p) && t.spec_kind(p as int) == "field_declaration"@
}

fn is_benign_parse_error(tree: &SyntaxTree, node: usize) -> (r: bool)
    requires
        tree.wf(),
        node < tree.len(),
    ensures
        r == benign(*tree, node as int),
{
    if !tree.rows[node].is_missing || !tree.kind_is(node, "field_identifier") {
        return false;
    }
    let before_clause = match tree.next_named_sibling(node) {
        Some(s) => tree.kind_is(s, "bitfield_clause"),
        None => false,
    };
    let in_field = match tree.parents[node] {
        Some(p) => tree.kind_is(p, "field_declaration"),
        None => false,
    };
    before_clause && in_field
}

/// The subtree of `n`, walked from `depth` on, holds a genuine syntax error.
pub open spec fn unrecovered(t: SyntaxTree, n: int, depth: nat) -> bool
    decreases MAX_PARSE_WALK_DEPTH - depth,
{
    if !t.rows@[n].has_error || benign(t, n) {
        false
    } else if depth >= MAX_PARSE_WALK_DEPTH {
        true
    } else {
        ||| exists|k: int|
            0 <= k < t.children(n).len() && unrecovered(
                t,
                #[trigger] t.children(n)[k] as int,
                depth + 1,
            )
        ||| t.rows@[n].is_error
        ||| t.rows@[n].is_missing
    }
}

/// Whether the tree contains genuine syntax errors. The false positives that
/// the grammars leave (unnamed bit-fields) are ignored.
pub fn has_parse_errors(tree: &SyntaxTree) -> (r: bool)
    requires
        tree.wf(),
    ensures
        r == unrecovered(*tree, 0, 0),
{
    if !tree.rows[0].has_error {
        return false;
    }
    has_unrecovered_parse_errors(tree, 0)
}

/// Whether the subtree of `node` contains genuine syntax errors.
pub fn has_unrecovered_parse_errors(tree: &SyntaxTree, node: usize) -> (r: bool)
    requires
        tree.wf(),
        node < tree.len(),
    ensures
        r == unrecovered(*tree, node as int, 0),
{
    has_unrecovered_parse_errors_depth(tree, node, 0)
}

fn has_unrecovered_parse_errors_depth(tree: &SyntaxTree, node: usize, depth: u32) -> (r: bool)
    requires
        tree.wf(),
        node < tree.len(),
        depth <= MAX_PARSE_WALK_DEPTH,
    ensures
        r == unrecovered(*tree, node as int, depth as nat),
    decreases MAX_PARSE_WALK_DEPTH - depth,
{
    if !tree.rows[node].has_error || is_benign_parse_error(tree, node) {
        return false;
    }
    if depth >= MAX_PARSE_WALK_DEPTH {
        return true;
    }
    let mut k: usize = 0;
    while k < tree.kids[node].len()
        invariant
            tree.wf(),
            node < tree.len(),
            depth < MAX_PARSE_WALK_DEPTH,
            tree.rows@[node as int].has_error,
            !benign(*tree, node as int),
            k <= tree.children(node as int).len(),
            forall|j: int|
                0 <= j < k ==> !unrecovered(
                    *tree,
                    #[trigger] tree.children(node as int)[j] as int,
                    (depth + 1) as nat,
                ),
        decreases tree.children(node as int).len() - k,
    {
        let child = tree.kids[node][k];
        assert(child == tree.children(node as int)[k as int]);
        if tree.rows[child].has_error && has_unrecovered_parse_errors_depth(tree, child, depth + 1) {
            return true;
        }
        k += 1;
    }
    tree.rows[node].is_error || tree.rows[node].is_missing
}

/// The innermost errors of the subtree of `n`: a node is one itself only where
/// nothing below it is.
pub open spec fn innermost_errors(t: SyntaxTree, n: int, depth: nat) -> Seq<usize>
    decreases MAX_PARSE_WALK_DEPTH - depth, 1nat, 0int,
{
    if !t.rows@[n].has_error || benign(t, n) {
        Seq::empty()
    } else if depth >= MAX_PARSE_WALK_DEPTH {
        seq![n as usize]
    } else {
        let below = errors_below(t, n, 0, depth);
        if below.len() == 0 && (t.rows@[n].is_error || t.rows@[n].is_missing) {
            seq![n as usize]
        } else {
            below
        }
    }
}

/// The innermost errors of the children of `n` from position `k` on.
pub open spec fn errors_below(t: SyntaxTree, n: int, k: int, depth: nat) -> Seq<usize>
    decreases MAX_PARSE_WALK_DEPTH - depth, 0nat, t.children(n).len() - k,
{
    if depth >= MAX_PARSE_WALK_DEPTH || k < 0 || k >= t.children(n).len() {
        Seq::empty()
    } else {
        innermost_errors(t, t.children(n)[k] as int, depth + 1) + errors_below(t, n, k + 1, depth)
    }
}

/// Collect the innermost errors and missing nodes of the subtree of `node`,
/// benign artifacts left out. Where an error holds others, only those are
/// collected.
pub fn collect_unrecovered_parse_errors(tree: &SyntaxTree, node: usize, out: &mut Vec<usize>)
    requires
        tree.wf(),
        node < tree.len(),
    ensures
        final(out)@ == old(out)@ + innermost_errors(*tree, node as int, 0),
{
    collect_unrecovered_parse_errors_depth(tree, node, out, 0);
}

fn collect_unrecovered_parse_errors_depth(
    tree: &SyntaxTree,
    node: usize,
    out: &mut Vec<usize>,
    depth: u32,
)
    requires
        tree.wf(),
        node < tree.len(),
        depth <= MAX_PARSE_WALK_DEPTH,
    ensures
        final(out)@ == old(out)@ + innermost_errors(*tree, node as int, depth as nat),
    decreases MAX_PARSE_WALK_DEPTH - depth,
{
    let ghost before = out@;
    if !tree.rows[node].has_error || is_benign_parse_error(tree, node) {
        assert(before + Seq::<usize>::empty() =~= before);
        return;
    }
    if depth >= MAX_PARSE_WALK_DEPTH {
        out.push(node);
        assert(out@ =~= before + seq![node]);
        return;
    }
    let initial_len = out.len();
    let mut k: usize = 0;
    while k < tree.kids[node].len()
        invariant
            tree.wf(),
            node < tree.len(),
            depth < MAX_PARSE_WALK_DEPTH,
            k <= tree.children(node as int).len(),
            before.len() == initial_len,
            initial_len <= out@.len(),
            out@ + errors_below(*tree, node as int, k as int, depth as nat) == before
                + errors_below(*tree, node as int, 0, depth as nat),
        decreases tree.children(node as int).len() - k,
    {
        let child = tree.kids[node][k];
        assert(child == tree.children(node as int)[k as int]);
        let ghost so_far = out@;
        if tree.rows[child].has_error {
            collect_unrecovered_parse_errors_depth(tree, child, out, depth + 1);
        }
        proof {
            let inner = innermost_errors(*tree, child as int, (depth + 1) as nat);
            assert(out@ =~= so_far + inner);
            assert(out@ + errors_below(*tree, node as int, k + 1, depth as nat) =~= so_far
                + errors_below(*tree, node as int, k as int, depth as nat));
        }
        k += 1;
    }
    assert(out@ + Seq::<usize>::empty() =~= out@);
    let ghost below = errors_below(*tree, node as int, 0, depth as nat);
    assert(out@ =~= before + below);
    if out.len() == initial_len && (tree.rows[node].is_error || tree.rows[node].is_missing) {
        out.push(node);
        assert(out@ =~= before + seq![node]);
    }
}

proof fn lemma_errors_below(t: SyntaxTree, n: int, k: int, depth: nat)
    requires
        depth < MAX_PARSE_WALK_DEPTH,
        0 <= k,
    ensures
        errors_below(t, n, k, depth).len() > 0 <==> exists|j: int|
            k <= j < t.children(n).len() && unrecovered(
                t,
                #[trigger] t.children(n)[j] as int,
                depth + 1,
            ),
    decreases MAX_PARSE_WALK_DEPTH - depth, 0nat, t.children(n).len() - k,
{
    if k < t.children(n).len() {
        law_errors_are_collected_where_there_are_some(t, t.children(n)[k] as int, depth + 1);
        lemma_errors_below(t, n, k + 1, depth);
        let first = t.children(n)[k] as int;
        if exists|j: int|
            k <= j < t.children(n).len() && unrecovered(
                t,
                #[trigger] t.children(n)[j] as int,
                depth + 1,
            ) {
            let j = choose|j: int|
                k <= j < t.children(n).len() && unrecovered(
                    t,
                    #[trigger] t.children(n)[j] as int,
                    depth + 1,
                );
            assert(j == k || k + 1 <= j);
        }
    }
}

/// A subtree holds a genuine syntax error exactly where collecting its errors
/// finds some.
pub proof fn law_errors_are_collected_where_there_are_some(t: SyntaxTree, n: int, depth: nat)
    ensures
        unrecovered(t, n, depth) <==> innermost_errors(t, n, depth).len() > 0,
    decreases MAX_PARSE_WALK_DEPTH - depth, 1nat, 0int,
{
    if !t.rows@[n].has_error || benign(t, n) {
    } else if depth >= MAX_PARSE_WALK_DEPTH {
    } else {
        lemma_errors_below(t, n, 0, depth);
    }
}

/// The nodes stand in the subtree of `n`, are no benign artifacts, and none
/// stands in the subtree of another.
pub open spec fn are_apart(t: SyntaxTree, n: int, found: Seq<usize>) -> bool {
    &&& forall|i: int|
        0 <= i < found.len() ==> t.within(n, #[trigger] found[i] as int)
            && t.rows@[found[i] as int].has_error && !benign(t, found[i] as int)
    &&& forall|i: int, j: int|
        0 <= i < found.len() && 0 <= j < found.len() && i != j ==> !t.within(
            #[trigger] found[i] as int,
            #[trigger] found[j] as int,
        )
}

/// The errors that are collected of a subtree stand in it, none of them is a
/// benign artifact, and none stands inside another.
pub proof fn law_collected_errors_do_not_nest(t: SyntaxTree, n: int, depth: nat)
    requires
        t.wf(),
        0 <= n < t.len(),
    ensures
        are_apart(t, n, innermost_errors(t, n, depth)),
    decreases MAX_PARSE_WALK_DEPTH - depth, 1nat, 0int,
{
    assert(t.within(n, n));
    assert(t.rows.len() == t.rows@.len());
    if !t.rows@[n].has_error || benign(t, n) || depth >= MAX_PARSE_WALK_DEPTH {
    } else {
        lemma_below_apart(t, n, 0, depth);
        let below = errors_below(t, n, 0, depth);
        assert forall|i: int| 0 <= i < below.len() implies t.within(n, #[trigger] below[i] as int) by {
            let j = choose|j: int|
                0 <= j < t.children(n).len() && t.within(
                    #[trigger] t.children(n)[j] as int,
                    below[i] as int,
                );
            assert(under_child(t, n, 0, below[i] as int));
            t.lemma_child_within(n, j);
            t.lemma_within(n, t.children(n)[j] as int, below[i] as int);
        }
    }
}

/// Node `m` stands in the subtree of a child of `n` from position `k` on.
spec fn under_child(t: SyntaxTree, n: int, k: int, m: int) -> bool {
    exists|j: int|
        k <= j < t.children(n).len() && t.within(#[trigger] t.children(n)[j] as int, m)
}

proof fn lemma_below_apart(t: SyntaxTree, n: int, k: int, depth: nat)
    requires
        t.wf(),
        0 <= n < t.len(),
        0 <= k,
        depth < MAX_PARSE_WALK_DEPTH,
    ensures
        forall|i: int|
            0 <= i < errors_below(t, n, k, depth).len() ==> under_child(
                t,
                n,
                k,
                #[trigger] errors_below(t, n, k, depth)[i] as int,
            ) && t.rows@[errors_below(t, n, k, depth)[i] as int].has_error && !benign(
                t,
                errors_below(t, n, k, depth)[i] as int,
            ),
        forall|i: int, j: int|
            0 <= i < errors_below(t, n, k, depth).len() && 0 <= j < errors_below(
                t,
                n,
                k,
                depth,
            ).len() && i != j ==> !t.within(
                #[trigger] errors_below(t, n, k, depth)[i] as int,
                #[trigger] errors_below(t, n, k, depth)[j] as int,
            ),
    decreases MAX_PARSE_WALK_DEPTH - depth, 0nat, t.children(n).len() - k,
{
    if k < t.children(n).len() {
        let c = t.children(n)[k] as int;
        let first = innermost_errors(t, c, depth + 1);
        let rest = errors_below(t, n, k + 1, depth);
        let all = errors_below(t, n, k, depth);
        assert(all == first + rest);
        law_collected_errors_do_not_nest(t, c, depth + 1);
        lemma_below_apart(t, n, k + 1, depth);
        assert forall|i: int| 0 <= i < all.len() implies under_child(
            t,
            n,
            k,
            #[trigger] all[i] as int,
        ) && t.rows@[all[i] as int].has_error && !benign(t, all[i] as int) by {
            if i < first.len() {
                assert(all[i] == first[i]);
                assert(t.within(t.children(n)[k] as int, first[i] as int));
            } else {
                let m = rest[i - first.len()];
                assert(all[i] == m);
                assert(under_child(t, n, k + 1, m as int));
            }
        }
        assert forall|i: int, j: int|
            0 <= i < all.len() && 0 <= j < all.len() && i != j implies !t.within(
            #[trigger] all[i] as int,
            #[trigger] all[j] as int,
        ) by {
            if i < first.len() && j < first.len() {
                assert(all[i] == first[i] && all[j] == first[j]);
            } else if i >= first.len() && j >= first.len() {
                assert(all[i] == rest[i - first.len()] && all[j] == rest[j - first.len()]);
            } else {
                let (early, late) = if i < first.len() {
                    (all[i] as int, all[j] as int)
                } else {
                    (all[j] as int, all[i] as int)
                };
                let at = if i < first.len() {
                    j - first.len()
                } else {
                    i - first.len()
                };
                assert(late == rest[at] as int);
                assert(under_child(t, n, k + 1, late));
                let b = choose|b: int|
                    k + 1 <= b < t.children(n).len() && t.within(
                        #[trigger] t.children(n)[b] as int,
                        late,
                    );
                assert(t.within(c, early));
                if t.within(early, late) {
                    t.lemma_within(c, early, late);
                    t.lemma_children_apart(n, k, b, late);
                }
                if t.within(late, early) {
                    t.lemma_within(t.children(n)[b] as int, late, early);
                    t.lemma_children_apart(n, k, b, early);
                }
            }
        }
    }
}

} // verus!
