//! Syntax trees as plain data: the nodes of a parsed text in preorder, with
//! their parents, children and the byte ranges they cover.

use crate::text;
use crate::text::{chars_of, ends, str_eq};
use vstd::prelude::*;
use vstd::utf8;

verus! {

/// What is known of one node: the kind the grammar gives it, the field of its
/// parent it fills, the bytes it covers, and how error recovery left it.
#[derive(Debug, PartialEq, Eq)]
pub struct SyntaxRow {
    pub kind: String,
    pub field: Option<String>,
    pub start: usize,
    pub end: usize,
    pub depth: u32,
    pub is_named: bool,
    pub is_missing: bool,
    pub is_error: bool,
    pub has_error: bool,
}

/// A row with its texts as characters.
pub struct RowView {
    pub kind: Seq<char>,
    pub field: Option<Seq<char>>,
    pub start: nat,
    pub end: nat,
    pub depth: nat,
    pub is_named: bool,
    pub is_missing: bool,
    pub is_error: bool,
    pub has_error: bool,
}

impl View for SyntaxRow {
    type V = RowView;

    open spec fn view(&self) -> RowView {
        RowView {
            kind: self.kind@,
            field: match self.field {
                Some(f) => Some(f@),
                None => None,
            },
            start: self.start as nat,
            end: self.end as nat,
            depth: self.depth as nat,
            is_named: self.is_named,
            is_missing: self.is_missing,
            is_error: self.is_error,
            has_error: self.has_error,
        }
    }
}

pub open spec fn row_views(rows: Seq<SyntaxRow>) -> Seq<RowView> {
    rows.map_values(|r: SyntaxRow| r@)
}

/// The rows list a tree in preorder: one root, and no row more than one level
/// below the row before it.
pub open spec fn preorder(rows: Seq<RowView>) -> bool {
    &&& rows.len() > 0
    &&& rows[0].depth == 0
    &&& forall|i: int|
        1 <= i < rows.len() ==> 1 <= (#[trigger] rows[i]).depth <= rows[i - 1].depth + 1
}

/// The nearest row before `i` that is less deep than `depth`, from `j` down.
pub open spec fn nearest_above(rows: Seq<RowView>, j: int, depth: nat) -> Option<int>
    decreases j + 1,
{
    if j < 0 || j >= rows.len() {
        None
    } else if rows[j].depth < depth {
        Some(j)
    } else {
        nearest_above(rows, j - 1, depth)
    }
}

/// The row that row `i` stands under.
pub open spec fn parent_row(rows: Seq<RowView>, i: int) -> Option<int> {
    nearest_above(rows, i - 1, rows[i].depth)
}

/// Each row covers whole characters of the source.
pub open spec fn covers(rows: Seq<RowView>, source: Seq<char>) -> bool {
    forall|i: int| 0 <= i < rows.len() ==> in_text(#[trigger] rows[i], source)
}

pub open spec fn in_text(row: RowView, source: Seq<char>) -> bool {
    let bytes = utf8::encode_utf8(source);
    &&& row.start <= row.end <= bytes.len()
    &&& utf8::is_char_boundary(bytes, row.start as int)
    &&& utf8::is_char_boundary(bytes, row.end as int)
}

/// The characters between two byte offsets of a text.
pub open spec fn text_between(source: Seq<char>, from: int, to: int) -> Seq<char> {
    utf8::decode_utf8(utf8::encode_utf8(source).subrange(from, to))
}

/// The part of `source` between two byte offsets.
pub fn slice<'a>(source: &'a str, from: usize, to: usize) -> (r: &'a str)
    requires
        from <= to <= utf8::encode_utf8(source@).len(),
        utf8::is_char_boundary(utf8::encode_utf8(source@), from as int),
        utf8::is_char_boundary(utf8::encode_utf8(source@), to as int),
    ensures
        r@ == text_between(source@, from as int, to as int),
{
    let ghost bytes = utf8::encode_utf8(source@);
    proof {
        utf8::encode_utf8_valid_utf8(source@);
        utf8::valid_utf8_split(bytes, from as int);
    }
    let (_, right) = source.split_at(from);
    let ghost after = bytes.subrange(from as int, bytes.len() as int);
    proof {
        if to < bytes.len() {
            utf8::is_char_boundary_iff_not_is_continuation_byte(bytes, to as int);
            utf8::is_char_boundary_iff_not_is_continuation_byte(after, to - from);
            assert(after[to - from] == bytes[to as int]);
        } else {
            utf8::is_char_boundary_start_end_of_seq(after);
        }
    }
    let (r, _) = right.split_at(to - from);
    proof {
        assert(after.subrange(0, to - from) =~= bytes.subrange(from as int, to as int));
        utf8::encode_utf8_decode_utf8(r@);
    }
    r
}

/// The characters between two byte offsets, none where they are out of order.
pub open spec fn span_text(source: Seq<char>, from: int, to: int) -> Seq<char> {
    if from <= to {
        text_between(source, from, to)
    } else {
        Seq::empty()
    }
}

/// The part of `source` between two offsets at which nodes begin or end.
pub fn span_chars(source: &str, from: usize, to: usize) -> (r: Vec<char>)
    requires
        from <= utf8::encode_utf8(source@).len(),
        to <= utf8::encode_utf8(source@).len(),
        utf8::is_char_boundary(utf8::encode_utf8(source@), from as int),
        utf8::is_char_boundary(utf8::encode_utf8(source@), to as int),
    ensures
        r@ == span_text(source@, from as int, to as int),
{
    if from <= to {
        chars_of(slice(source, from, to))
    } else {
        Vec::new()
    }
}

/// A syntax tree: its rows, the parent of each and the children of each, all
/// by position in the preorder.
#[derive(Debug, PartialEq, Eq)]
pub struct SyntaxTree {
    pub rows: Vec<SyntaxRow>,
    pub parents: Vec<Option<usize>>,
    pub kids: Vec<Vec<usize>>,
}

impl SyntaxTree {
    pub open spec fn view(&self) -> Seq<RowView> {
        row_views(self.rows@)
    }

    pub open spec fn len(&self) -> int {
        self.rows@.len() as int
    }

    pub open spec fn spec_kind(&self, n: int) -> Seq<char> {
        self.rows@[n].kind@
    }

    pub open spec fn children(&self, n: int) -> Seq<usize> {
        self.kids@[n]@
    }

    pub open spec fn spec_parent(&self, n: int) -> Option<usize> {
        self.parents@[n]
    }

    /// Parents stand before their children, and the children of a node are, in
    /// order, the nodes that have it as their parent.
    pub open spec fn wf(&self) -> bool {
        &&& self.rows@.len() > 0
        &&& self.parents@.len() == self.rows@.len()
        &&& self.kids@.len() == self.rows@.len()
        &&& self.parents@[0] is None
        &&& forall|i: int|
            1 <= i < self.len() ==> (#[trigger] self.parents@[i]) is Some && self.parents@[i]->0 < i
        &&& forall|i: int, k: int|
            0 <= i < self.len() && 0 <= k < self.children(i).len() ==> {
                &&& i < #[trigger] self.children(i)[k] < self.len()
                &&& self.parents@[self.children(i)[k] as int] == Some(i as usize)
            }
        &&& forall|i: int, k: int, l: int|
            0 <= i < self.len() && 0 <= k < l < self.children(i).len() ==> #[trigger] self.children(
                i,
            )[k] < #[trigger] self.children(i)[l]
        &&& forall|i: int|
            1 <= i < self.len() ==> self.children(#[trigger] self.parents@[i]->0 as int).contains(
                i as usize,
            )
    }

    /// Node `m` stands in the subtree of `n`: it is `n`, or its parent stands
    /// there.
    pub open spec fn within(&self, n: int, m: int) -> bool
        decreases m,
    {
        n == m || (n < m < self.len() && self.parents@[m] is Some && self.parents@[m]->0 < m
            && self.within(n, self.parents@[m]->0 as int))
    }

    /// A subtree holds the subtrees of its nodes.
    pub proof fn lemma_within(&self, n: int, c: int, m: int)
        requires
            self.within(n, c),
            self.within(c, m),
        ensures
            self.within(n, m),
        decreases m,
    {
        if c != m {
            self.lemma_within(n, c, self.parents@[m]->0 as int);
            self.lemma_within_above(n, c);
        }
    }

    /// A node stands no earlier than the subtree it is in.
    pub proof fn lemma_within_above(&self, n: int, m: int)
        requires
            self.within(n, m),
        ensures
            n <= m,
    {
    }

    /// A node's children stand in its subtree.
    pub proof fn lemma_child_within(&self, n: int, k: int)
        requires
            self.wf(),
            0 <= n < self.len(),
            0 <= k < self.children(n).len(),
        ensures
            self.within(n, self.children(n)[k] as int),
    {
        let c = self.children(n)[k] as int;
        assert(self.parents@[c] == Some(n as usize));
        assert(self.within(n, n));
    }

    /// The subtrees of two children have no node in common.
    pub proof fn lemma_children_apart(&self, n: int, a: int, b: int, m: int)
        requires
            self.wf(),
            0 <= n < self.len(),
            0 <= a < self.children(n).len(),
            0 <= b < self.children(n).len(),
            a != b,
        ensures
            !(self.within(self.children(n)[a] as int, m) && self.within(
                self.children(n)[b] as int,
                m,
            )),
        decreases m,
    {
        let x = self.children(n)[a] as int;
        let y = self.children(n)[b] as int;
        if self.within(x, m) && self.within(y, m) {
            assert(self.parents@[x] == Some(n as usize));
            assert(self.parents@[y] == Some(n as usize));
            if a < b {
                assert(self.children(n)[a] < self.children(n)[b]);
            } else {
                assert(self.children(n)[b] < self.children(n)[a]);
            }
            if m == x {
                assert(self.within(y, n));
            } else if m == y {
                assert(self.within(x, n));
            } else {
                self.lemma_children_apart(n, a, b, self.parents@[m]->0 as int);
            }
        }
    }

    /// The tree is the one of these rows.
    pub open spec fn is_tree_of(&self, rows: Seq<RowView>) -> bool {
        &&& self.wf()
        &&& self@ == rows
        &&& forall|i: int|
            1 <= i < self.len() ==> parent_row(rows, i) == Some(
                (#[trigger] self.parents@[i])->0 as int,
            )
    }

    /// The children of `n` that the grammar names.
    pub open spec fn named(&self, n: int) -> Seq<usize> {
        self.children(n).filter(|c: usize| self.rows@[c as int].is_named)
    }

    /// The first child of `n`, from position `k`, that fills the field `name`.
    pub open spec fn fielded_from(&self, n: int, name: Seq<char>, k: int) -> Option<usize>
        decreases self.children(n).len() - k,
    {
        if k < 0 || k >= self.children(n).len() {
            None
        } else if self.fills(self.children(n)[k] as int, name) {
            Some(self.children(n)[k])
        } else {
            self.fielded_from(n, name, k + 1)
        }
    }

    pub open spec fn fills(&self, n: int, name: Seq<char>) -> bool {
        self.rows@[n].field matches Some(f) && f@ == name
    }

    pub open spec fn fielded(&self, n: int, name: Seq<char>) -> Option<usize> {
        self.fielded_from(n, name, 0)
    }

    /// The text that node `n` covers.
    pub open spec fn text(&self, source: Seq<char>, n: int) -> Seq<char> {
        text_between(source, self.rows@[n].start as int, self.rows@[n].end as int)
    }

    /// The tree is well formed and its nodes cover parts of `source`.
    pub open spec fn fits(&self, source: Seq<char>) -> bool {
        self.wf() && covers(self@, source)
    }

    pub fn kind_is(&self, n: usize, kind: &str) -> (r: bool)
        requires
            n < self.len(),
        ensures
            r == (self.spec_kind(n as int) == kind@),
    {
        str_eq(self.rows[n].kind.as_str(), kind)
    }

    /// The kind of `n` ends with `suffix`.
    pub open spec fn kind_ends(&self, n: int, suffix: Seq<char>) -> bool {
        text::ends_with(self.spec_kind(n), suffix)
    }

    pub fn kind_ends_with(&self, n: usize, suffix: &str) -> (r: bool)
        requires
            n < self.len(),
        ensures
            r == self.kind_ends(n as int, suffix@),
    {
        ends(&chars_of(self.rows[n].kind.as_str()), &chars_of(suffix))
    }

    pub fn field_is(&self, n: usize, name: &str) -> (r: bool)
        requires
            n < self.len(),
        ensures
            r == self.fills(n as int, name@),
    {
        match &self.rows[n].field {
            Some(f) => str_eq(f.as_str(), name),
            None => false,
        }
    }

    /// The first child of `n` that fills the field `name`.
    pub fn child_by_field_name(&self, n: usize, name: &str) -> (r: Option<usize>)
        requires
            self.wf(),
            n < self.len(),
        ensures
            r == self.fielded(n as int, name@),
            r matches Some(c) ==> n < c < self.len(),
    {
        let mut k: usize = 0;
        while k < self.kids[n].len()
            invariant
                self.wf(),
                n < self.len(),
                k <= self.children(n as int).len(),
                self.fielded(n as int, name@) == self.fielded_from(n as int, name@, k as int),
            decreases self.children(n as int).len() - k,
        {
            let c = self.kids[n][k];
            assert(c == self.children(n as int)[k as int]);
            if self.field_is(c, name) {
                return Some(c);
            }
            k += 1;
        }
        None
    }

    /// The children of `n` that the grammar names, in order.
    pub fn named_children(&self, n: usize) -> (r: Vec<usize>)
        requires
            self.wf(),
            n < self.len(),
        ensures
            r@ == self.named(n as int),
            forall|k: int| 0 <= k < r@.len() ==> n < #[trigger] r@[k] < self.len(),
    {
        let mut r: Vec<usize> = Vec::new();
        let mut k: usize = 0;
        let ghost is_named = |c: usize| self.rows@[c as int].is_named;
        let ghost all = self.children(n as int);
        proof {
            reveal(Seq::filter);
            assert(all.take(0).filter(is_named) =~= Seq::empty());
        }
        while k < self.kids[n].len()
            invariant
                self.wf(),
                n < self.len(),
                k <= all.len(),
                all == self.children(n as int),
                is_named == (|c: usize| self.rows@[c as int].is_named),
                r@ == all.take(k as int).filter(is_named),
                forall|j: int| 0 <= j < r@.len() ==> n < #[trigger] r@[j] < self.len(),
            decreases all.len() - k,
        {
            proof {
                reveal(Seq::filter);
                assert(all.take(k + 1).drop_last() =~= all.take(k as int));
                assert(all.take(k + 1).last() == all[k as int]);
            }
            let c = self.kids[n][k];
            assert(c == self.children(n as int)[k as int]);
            if self.rows[c].is_named {
                r.push(c);
            }
            k += 1;
        }
        assert(all.take(k as int) =~= all);
        r
    }

    /// The named child of `n` at position `i`.
    pub fn named_child(&self, n: usize, i: usize) -> (r: Option<usize>)
        requires
            self.wf(),
            n < self.len(),
        ensures
            r == (if i < self.named(n as int).len() {
                Some(self.named(n as int)[i as int])
            } else {
                None
            }),
            r matches Some(c) ==> n < c < self.len(),
    {
        let all = self.named_children(n);
        if i < all.len() {
            Some(all[i])
        } else {
            None
        }
    }

    /// The first child of `n`, from position `k`, of the given kind.
    pub open spec fn of_kind_from(&self, n: int, kind: Seq<char>, k: int) -> Option<usize>
        decreases self.children(n).len() - k,
    {
        if k < 0 || k >= self.children(n).len() {
            None
        } else if self.spec_kind(self.children(n)[k] as int) == kind {
            Some(self.children(n)[k])
        } else {
            self.of_kind_from(n, kind, k + 1)
        }
    }

    pub open spec fn of_kind(&self, n: int, kind: Seq<char>) -> Option<usize> {
        self.of_kind_from(n, kind, 0)
    }

    /// The first child of `n` of the given kind.
    pub fn child_of_kind(&self, n: usize, kind: &str) -> (r: Option<usize>)
        requires
            self.wf(),
            n < self.len(),
        ensures
            r == self.of_kind(n as int, kind@),
            r matches Some(c) ==> n < c < self.len(),
    {
        let mut k: usize = 0;
        while k < self.kids[n].len()
            invariant
                self.wf(),
                n < self.len(),
                k <= self.children(n as int).len(),
                self.of_kind(n as int, kind@) == self.of_kind_from(n as int, kind@, k as int),
            decreases self.children(n as int).len() - k,
        {
            let c = self.kids[n][k];
            assert(c == self.children(n as int)[k as int]);
            if self.kind_is(c, kind) {
                return Some(c);
            }
            k += 1;
        }
        None
    }

    /// The first named child of `n`.
    pub open spec fn named_first(&self, n: int) -> Option<usize> {
        if self.named(n).len() > 0 {
            Some(self.named(n)[0])
        } else {
            None
        }
    }

    /// The child of `n` that fills `name`, else its first named child.
    pub open spec fn fielded_or_first(&self, n: int, name: Seq<char>) -> Option<usize> {
        match self.fielded(n, name) {
            Some(c) => Some(c),
            None => self.named_first(n),
        }
    }

    pub fn field_or_first(&self, n: usize, name: &str) -> (r: Option<usize>)
        requires
            self.wf(),
            n < self.len(),
        ensures
            r == self.fielded_or_first(n as int, name@),
            r matches Some(c) ==> n < c < self.len(),
    {
        match self.child_by_field_name(n, name) {
            Some(c) => Some(c),
            None => self.named_child(n, 0),
        }
    }

    pub proof fn lemma_fielded(&self, n: int, name: Seq<char>)
        requires
            self.wf(),
            0 <= n < self.len(),
        ensures
            self.fielded(n, name) matches Some(c) ==> n < c < self.len(),
    {
        self.lemma_fielded_from(n, name, 0);
    }

    proof fn lemma_fielded_from(&self, n: int, name: Seq<char>, k: int)
        requires
            self.wf(),
            0 <= n < self.len(),
        ensures
            self.fielded_from(n, name, k) matches Some(c) ==> n < c < self.len(),
        decreases self.children(n).len() - k,
    {
        if 0 <= k < self.children(n).len() {
            assert(n < self.children(n)[k] < self.len());
            self.lemma_fielded_from(n, name, k + 1);
        }
    }

    pub proof fn lemma_of_kind(&self, n: int, kind: Seq<char>, k: int)
        requires
            self.wf(),
            0 <= n < self.len(),
        ensures
            self.of_kind_from(n, kind, k) matches Some(c) ==> n < c < self.len(),
        decreases self.children(n).len() - k,
    {
        if 0 <= k < self.children(n).len() {
            assert(n < self.children(n)[k] < self.len());
            self.lemma_of_kind(n, kind, k + 1);
        }
    }

    pub proof fn lemma_named(&self, n: int)
        requires
            self.wf(),
            0 <= n < self.len(),
        ensures
            forall|k: int| 0 <= k < self.named(n).len() ==> n < #[trigger] self.named(n)[k] < self.len(),
    {
        let is_named = |c: usize| self.rows@[c as int].is_named;
        assert forall|k: int| 0 <= k < self.named(n).len() implies n < #[trigger] self.named(n)[k]
            < self.len() by {
            let c = self.named(n)[k];
            assert(self.named(n).contains(c));
            self.children(n).lemma_filter_contains_rev(is_named, c);
            assert(self.children(n).contains(c));
            let j = choose|j: int| 0 <= j < self.children(n).len() && self.children(n)[j] == c;
            assert(n < self.children(n)[j] < self.len());
        }
    }

    /// The node that follows `n` among the children of its parent that the
    /// grammar names.
    pub open spec fn next_named(&self, n: int) -> Option<usize> {
        match self.spec_parent(n) {
            Some(p) => first_after(self.named(p as int), n, 0),
            None => None,
        }
    }

    pub fn next_named_sibling(&self, n: usize) -> (r: Option<usize>)
        requires
            self.wf(),
            n < self.len(),
        ensures
            r == self.next_named(n as int),
            r matches Some(c) ==> n < c < self.len(),
    {
        match self.parents[n] {
            Some(p) => {
                let all = self.named_children(p);
                let mut k: usize = 0;
                while k < all.len()
                    invariant
                        k <= all@.len(),
                        self.parents@[n as int] == Some(p),
                        all@ == self.named(p as int),
                        forall|j: int| 0 <= j < all@.len() ==> p < #[trigger] all@[j] < self.len(),
                        first_after(all@, n as int, 0) == first_after(all@, n as int, k as int),
                    decreases all@.len() - k,
                {
                    if all[k] > n {
                        return Some(all[k]);
                    }
                    k += 1;
                }
                None
            },
            None => None,
        }
    }

    /// The node that stands before `n` among the children of its parent that
    /// the grammar names.
    pub open spec fn prev_named(&self, n: int) -> Option<usize> {
        match self.spec_parent(n) {
            Some(p) => last_before(self.named(p as int), n, self.named(p as int).len() as int),
            None => None,
        }
    }

    pub fn prev_named_sibling(&self, n: usize) -> (r: Option<usize>)
        requires
            self.wf(),
            n < self.len(),
        ensures
            r == self.prev_named(n as int),
            r matches Some(c) ==> c < n,
    {
        match self.parents[n] {
            Some(p) => {
                let all = self.named_children(p);
                let mut k: usize = all.len();
                while k > 0
                    invariant
                        k <= all@.len(),
                        self.parents@[n as int] == Some(p),
                        all@ == self.named(p as int),
                        last_before(all@, n as int, all@.len() as int) == last_before(
                            all@,
                            n as int,
                            k as int,
                        ),
                    decreases k,
                {
                    if all[k - 1] < n {
                        return Some(all[k - 1]);
                    }
                    k -= 1;
                }
                None
            },
            None => None,
        }
    }

    /// The last child of `n`.
    pub open spec fn last_child(&self, n: int) -> Option<usize> {
        if self.children(n).len() > 0 {
            Some(self.children(n).last())
        } else {
            None
        }
    }

    pub fn last_child_of(&self, n: usize) -> (r: Option<usize>)
        requires
            self.wf(),
            n < self.len(),
        ensures
            r == self.last_child(n as int),
            r matches Some(c) ==> n < c < self.len(),
    {
        let count = self.kids[n].len();
        if count == 0 {
            return None;
        }
        let c = self.kids[n][count - 1];
        assert(c == self.children(n as int)[count - 1]);
        Some(c)
    }

    /// Node `n` has a parent of the given kind.
    pub open spec fn stands_under(&self, n: int, kind: Seq<char>) -> bool {
        self.spec_parent(n) matches Some(p) && self.spec_kind(p as int) == kind
    }

    pub fn parent_is(&self, n: usize, kind: &str) -> (r: bool)
        requires
            self.wf(),
            n < self.len(),
        ensures
            r == self.stands_under(n as int, kind@),
    {
        match self.parents[n] {
            Some(p) => self.kind_is(p, kind),
            None => false,
        }
    }

    /// `n` is a declaration, or, where `functions` says so, a function
    /// definition.
    pub open spec fn declares(&self, n: int, functions: bool) -> bool {
        let kind = self.spec_kind(n);
        kind == "declaration"@ || kind == "field_declaration"@ || functions && kind
            == "function_definition"@
    }

    /// The nearest declaration that `n` is or stands in.
    pub open spec fn declaration_of(&self, n: int, functions: bool) -> Option<usize>
        decreases n,
        when self.wf() && 0 <= n < self.len()
    {
        if self.declares(n, functions) {
            Some(n as usize)
        } else {
            match self.spec_parent(n) {
                Some(p) => if p < n {
                    self.declaration_of(p as int, functions)
                } else {
                    None
                },
                None => None,
            }
        }
    }

    /// Climb to the declaration that `n` is or stands in.
    pub fn enclosing_decl(&self, n: usize, functions: bool) -> (r: Option<usize>)
        requires
            self.wf(),
            n < self.len(),
        ensures
            r == self.declaration_of(n as int, functions),
            r matches Some(d) ==> d <= n && self.declares(d as int, functions),
    {
        let mut at: usize = n;
        loop
            invariant
                self.wf(),
                at <= n < self.len(),
                self.declaration_of(n as int, functions) == self.declaration_of(
                    at as int,
                    functions,
                ),
            decreases at,
        {
            if self.kind_is(at, "declaration") || self.kind_is(at, "field_declaration")
                || functions && self.kind_is(at, "function_definition") {
                return Some(at);
            }
            match self.parents[at] {
                Some(p) => {
                    assert(at >= 1);
                    at = p;
                },
                None => {
                    return None;
                },
            }
        }
    }
}

/// The last of `nodes`, before position `k`, that stands before `n`.
pub open spec fn last_before(nodes: Seq<usize>, n: int, k: int) -> Option<usize>
    decreases k,
{
    if k <= 0 || k > nodes.len() {
        None
    } else if nodes[k - 1] < n {
        Some(nodes[k - 1])
    } else {
        last_before(nodes, n, k - 1)
    }
}

/// The first of `nodes`, from position `k`, that stands behind `n`.
pub open spec fn first_after(nodes: Seq<usize>, n: int, k: int) -> Option<usize>
    decreases nodes.len() - k,
{
    if k < 0 || k >= nodes.len() {
        None
    } else if nodes[k] > n {
        Some(nodes[k])
    } else {
        first_after(nodes, n, k + 1)
    }
}

/// Whether the rows list a tree whose nodes cover parts of `source`.
pub fn is_listing(rows: &Vec<SyntaxRow>, source: &str) -> (r: bool)
    ensures
        r == (preorder(row_views(rows@)) && covers(row_views(rows@), source@)),
{
    let ghost views = row_views(rows@);
    let ghost bytes = utf8::encode_utf8(source@);
    if rows.len() == 0 || rows[0].depth != 0 {
        assert(rows@.len() > 0 ==> views[0] == rows@[0]@);
        return false;
    }
    assert(views[0] == rows@[0]@);
    let total = source.as_bytes().len();
    let mut i: usize = 0;
    while i < rows.len()
        invariant
            i <= rows@.len(),
            views == row_views(rows@),
            bytes == utf8::encode_utf8(source@),
            total == bytes.len(),
            forall|j: int| 0 <= j < i ==> in_text(#[trigger] views[j], source@),
            forall|j: int|
                1 <= j < i ==> 1 <= (#[trigger] views[j]).depth <= views[j - 1].depth + 1,
        decreases rows@.len() - i,
    {
        assert(views[i as int] == rows@[i as int]@);
        if i > 0 {
            assert(views[i - 1] == rows@[i - 1]@);
            let above = rows[i - 1].depth;
            if rows[i].depth == 0 || rows[i].depth > above && rows[i].depth - above > 1 {
                return false;
            }
        }
        let (start, end) = (rows[i].start, rows[i].end);
        if start > end || end > total || !source.is_char_boundary(start)
            || !source.is_char_boundary(end) {
            assert(!in_text(views[i as int], source@));
            return false;
        }
        i += 1;
    }
    true
}

proof fn lemma_nearest_above(rows: Seq<RowView>, j: int, depth: nat, p: int)
    requires
        0 <= p <= j < rows.len(),
        rows[p].depth < depth,
        forall|k: int| p < k <= j ==> (#[trigger] rows[k]).depth >= depth,
    ensures
        nearest_above(rows, j, depth) == Some(p),
    decreases j,
{
    if p < j {
        assert(rows[j].depth >= depth);
        lemma_nearest_above(rows, j - 1, depth, p);
    }
}

/// The parents and the children of rows that list a tree.
pub fn build_tree(rows: Vec<SyntaxRow>) -> (t: SyntaxTree)
    requires
        preorder(row_views(rows@)),
    ensures
        t.is_tree_of(row_views(rows@)),
{
    let ghost views = row_views(rows@);
    let mut parents: Vec<Option<usize>> = Vec::new();
    let mut kids: Vec<Vec<usize>> = Vec::new();
    // The node last seen at each depth, for the depths above the next row.
    let mut open: Vec<usize> = Vec::new();
    parents.push(None);
    kids.push(Vec::new());
    open.push(0);
    let mut i: usize = 1;
    assert(views[0] == rows@[0]@);
    while i < rows.len()
        invariant
            1 <= i <= rows@.len(),
            views == row_views(rows@),
            preorder(views),
            parents@.len() == i,
            kids@.len() == i,
            parents@[0] is None,
            open@.len() == views[i - 1].depth + 1,
            forall|d: int|
                0 <= d < open@.len() ==> (#[trigger] open@[d]) < i && views[open@[d] as int].depth
                    == d,
            forall|d: int, k: int|
                0 <= d < open@.len() && open@[d] < k < i ==> (#[trigger] views[k]).depth > (
                #[trigger] views[open@[d] as int]).depth,
            forall|j: int|
                1 <= j < i ==> (#[trigger] parents@[j]) is Some && parents@[j]->0 < j && parent_row(
                    views,
                    j,
                ) == Some(parents@[j]->0 as int),
            forall|j: int, k: int|
                0 <= j < i && 0 <= k < kids@[j]@.len() ==> j < #[trigger] kids@[j]@[k] < i
                    && parents@[kids@[j]@[k] as int] == Some(j as usize),
            forall|j: int, k: int, l: int|
                0 <= j < i && 0 <= k < l < kids@[j]@.len() ==> #[trigger] kids@[j]@[k]
                    < #[trigger] kids@[j]@[l],
            forall|j: int|
                1 <= j < i ==> kids@[(#[trigger] parents@[j])->0 as int]@.contains(j as usize),
        decreases rows@.len() - i,
    {
        let depth = rows[i].depth as usize;
        assert(views[i as int] == rows@[i as int]@);
        let ghost before_open = open@;
        open.truncate(depth);
        let p = open[depth - 1];
        proof {
            assert(open@ =~= before_open.take(depth as int));
            assert(before_open[depth - 1] == p);
            assert forall|k: int| p < k <= i - 1 implies (#[trigger] views[k]).depth >= depth by {
                assert(views[k].depth > views[before_open[depth - 1] as int].depth);
            }
            lemma_nearest_above(views, i - 1, depth as nat, p as int);
        }
        let ghost before_kids = kids@;
        let ghost before_parents = parents@;
        kids[p].push(i);
        kids.push(Vec::new());
        parents.push(Some(p));
        open.push(i);
        proof {
            assert(kids@[p as int]@ == before_kids[p as int]@.push(i));
            assert(forall|j: int| 0 <= j < i && j != p ==> kids@[j] == before_kids[j]);
            assert forall|j: int, k: int| 0 <= j < i + 1 && 0 <= k < kids@[j]@.len() implies j
                < #[trigger] kids@[j]@[k] < i + 1 && parents@[kids@[j]@[k] as int] == Some(
                j as usize,
            ) by {
                if j < i && (j != p || k < before_kids[j]@.len()) {
                    assert(kids@[j]@[k] == before_kids[j]@[k]);
                }
            }
            assert forall|j: int, k: int, l: int|
                0 <= j < i + 1 && 0 <= k < l < kids@[j]@.len() implies #[trigger] kids@[j]@[k]
                < #[trigger] kids@[j]@[l] by {
                if j < i {
                    assert(kids@[j]@[k] == before_kids[j]@[k]);
                    if j != p || l < before_kids[j]@.len() {
                        assert(kids@[j]@[l] == before_kids[j]@[l]);
                    }
                }
            }
            assert forall|j: int| 1 <= j < i + 1 implies kids@[(
            #[trigger] parents@[j])->0 as int]@.contains(j as usize) by {
                if j == i {
                    assert(kids@[p as int]@[before_kids[p as int]@.len() as int] == i);
                } else {
                    let q = before_parents[j]->0 as int;
                    assert(parents@[j] == before_parents[j]);
                    let at = choose|at: int|
                        0 <= at < before_kids[q]@.len() && before_kids[q]@[at] == j as usize;
                    assert(kids@[q]@[at] == j as usize);
                }
            }
            assert forall|d: int, k: int|
                0 <= d < open@.len() && open@[d] < k < i + 1 implies (#[trigger] views[k]).depth > (
            #[trigger] views[open@[d] as int]).depth by {
                if d < depth {
                    assert(open@[d] == before_open[d]);
                    if k < i {
                        assert(views[k].depth > views[before_open[d] as int].depth);
                    }
                }
            }
            assert forall|d: int| 0 <= d < open@.len() implies (#[trigger] open@[d]) < i + 1
                && views[open@[d] as int].depth == d by {
                if d < depth {
                    assert(open@[d] == before_open[d]);
                }
            }
        }
        i += 1;
    }
    let t = SyntaxTree { rows, parents, kids };
    proof {
        assert forall|a: int, k: int| 0 <= a < t.len() && 0 <= k < t.children(a).len() implies {
            &&& a < #[trigger] t.children(a)[k] < t.len()
            &&& t.parents@[t.children(a)[k] as int] == Some(a as usize)
        } by {
            assert(t.children(a)[k] == t.kids@[a]@[k]);
        }
        assert forall|a: int, k: int, l: int|
            0 <= a < t.len() && 0 <= k < l < t.children(a).len() implies #[trigger] t.children(a)[k]
            < #[trigger] t.children(a)[l] by {
            assert(t.children(a)[k] == t.kids@[a]@[k]);
            assert(t.children(a)[l] == t.kids@[a]@[l]);
        }
    }
    t
}

} // verus!
