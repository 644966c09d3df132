//! Syntax trees as plain lists of nodes, and how to move about in them.
use vstd::prelude::*;
use vstd::utf8::encode_utf8;

use crate::bytes::{char_at, is_boundary};
use crate::chunk::languages::Grammar;
use crate::text::same;

verus! {

/// One node of a syntax tree.
#[derive(Debug)]
pub struct TreeNode {
    pub kind: String,
    /// The name of the field of its parent that the node is.
    pub field: Option<String>,
    /// How deep the node is; the root is at depth zero.
    pub depth: u32,
    pub start_byte: usize,
    pub end_byte: usize,
    /// The rows, counted from zero, on which the node starts and ends.
    pub start_row: u32,
    pub end_row: u32,
}

/// What a [`TreeNode`] holds.
#[verifier::ext_equal]
pub struct TreeNodeView {
    pub kind: Seq<char>,
    pub field: Option<Seq<char>>,
    pub depth: u32,
    pub start_byte: usize,
    pub end_byte: usize,
    pub start_row: u32,
    pub end_row: u32,
}

impl DeepView for TreeNode {
    type V = TreeNodeView;

    open spec fn deep_view(&self) -> TreeNodeView {
        TreeNodeView {
            kind: self.kind@,
            field: self.field.deep_view(),
            depth: self.depth,
            start_byte: self.start_byte,
            end_byte: self.end_byte,
            start_row: self.start_row,
            end_row: self.end_row,
        }
    }
}

impl Clone for TreeNode {
    fn clone(&self) -> (r: Self)
        ensures
            r.deep_view() == self.deep_view(),
    {
        TreeNode {
            kind: self.kind.clone(),
            field: self.field.clone(),
            depth: self.depth,
            start_byte: self.start_byte,
            end_byte: self.end_byte,
            start_row: self.start_row,
            end_row: self.end_row,
        }
    }
}

/// A parsed syntax tree.
#[verifier::external_type_specification]
#[verifier::external_body]
pub struct ExTree(tree_sitter::Tree);

/// A cursor over a syntax tree.
#[verifier::external_type_specification]
#[verifier::external_body]
pub struct ExTreeCursor<'a>(tree_sitter::TreeCursor<'a>);

/// The nodes that a cursor goes over, in the order of the tree.
pub uninterp spec fn nodes_under(cursor: tree_sitter::TreeCursor<'_>) -> Seq<TreeNodeView>;

/// The nodes of a syntax tree, each before its children and those from left to
/// right.
pub uninterp spec fn nodes_of(tree: tree_sitter::Tree) -> Seq<TreeNodeView>;

/// The nodes of the syntax tree of a source text in a grammar, where the
/// parser comes to a tree.
pub uninterp spec fn parsed(grammar: Grammar, source: Seq<char>) -> Option<Seq<TreeNodeView>>;

/// How many line feeds a text holds.
pub open spec fn feeds(s: Seq<char>) -> int
    decreases s.len(),
{
    if s.len() == 0 {
        0
    } else {
        feeds(s.drop_last()) + if s.last() == '\n' {
            1int
        } else {
            0
        }
    }
}

/// Whether rows are counted by line feeds: a node's rows are those of the source
/// before its first byte and before its end, wherever a character stands there.
pub open spec fn rows_count_feeds(source: Seq<char>, n: Seq<TreeNodeView>) -> bool {
    forall|i: int|
        0 <= i < n.len() ==> {
            let t = #[trigger] n[i];
            &&& is_boundary(source, t.start_byte as int) ==> t.start_row == feeds(
                source.take(char_at(source, t.start_byte as int)),
            )
            &&& is_boundary(source, t.end_byte as int) ==> t.end_row == feeds(
                source.take(char_at(source, t.end_byte as int)),
            )
        }
}

/// Whether a source is short enough for the parser's 32-bit offsets.
pub open spec fn is_addressable(source: Seq<char>) -> bool {
    encode_utf8(source).len() < u32::MAX
}

/// Why the parser does not take a grammar, where it does not.
pub uninterp spec fn grammar_error(grammar: Grammar) -> Option<Seq<char>>;

/// `Parser::set_language` with the grammar's language, then `Parser::parse`
/// on the whole source: the tree, nothing where the parser gives up, or the
/// error of the grammar's version. The lexer starts a new row at each line feed
/// and at nothing else. Beyond that, which nodes a source has is a function of
/// the grammar and the source and is not said here.
#[verifier::external_body]
fn parse_source(grammar: Grammar, source: &str) -> (r: Result<Option<tree_sitter::Tree>, String>)
    ensures
        match r {
            Ok(Some(tree)) => grammar_error(grammar) is None && parsed(grammar, source@) == Some(
                nodes_of(tree),
            ) && (is_addressable(source@) ==> rows_count_feeds(source@, nodes_of(tree))),
            Ok(None) => grammar_error(grammar) is None && parsed(grammar, source@) is None,
            Err(e) => grammar_error(grammar) == Some(e@),
        },
{
    let language = match grammar {
        Grammar::Rust => tree_sitter_rust::LANGUAGE,
        Grammar::Go => tree_sitter_go::LANGUAGE,
        Grammar::TypeScript => tree_sitter_typescript::LANGUAGE_TYPESCRIPT,
        Grammar::Tsx => tree_sitter_typescript::LANGUAGE_TSX,
        Grammar::JavaScript => tree_sitter_javascript::LANGUAGE,
        Grammar::Python => tree_sitter_python::LANGUAGE,
        Grammar::Java => tree_sitter_java::LANGUAGE,
        Grammar::Cpp => tree_sitter_cpp::LANGUAGE,
        Grammar::CSharp => tree_sitter_c_sharp::LANGUAGE,
    };
    let mut parser = tree_sitter::Parser::new();
    parser.set_language(&language.into()).map_err(|e| e.to_string())?;
    Ok(parser.parse(source, None))
}

/// `Tree::root_node`, then `Node::descendant_count`: how many nodes the tree
/// has, the root among them.
#[verifier::external_body]
fn count_nodes(tree: &tree_sitter::Tree) -> (r: usize)
    ensures
        r == nodes_of(*tree).len(),
{
    tree.root_node().descendant_count()
}

/// `Tree::walk`: a cursor over the nodes of the tree.
#[verifier::external_body]
fn start_walk<'a>(tree: &'a tree_sitter::Tree) -> (r: tree_sitter::TreeCursor<'a>)
    ensures
        nodes_under(r) == nodes_of(*tree),
{
    tree.walk()
}

/// `TreeCursor::goto_descendant`, and what the cursor then says of the node it
/// stands on: the node at that place in the order of the tree. The cursor goes
/// over the same nodes as before.
#[verifier::external_body]
fn node_at(cursor: &mut tree_sitter::TreeCursor<'_>, i: usize) -> (r: TreeNode)
    requires
        i < nodes_under(*old(cursor)).len(),
    ensures
        r.deep_view() == nodes_under(*old(cursor))[i as int],
        nodes_under(*final(cursor)) == nodes_under(*old(cursor)),
{
    cursor.goto_descendant(i);
    let node = cursor.node();
    TreeNode {
        kind: node.kind().to_string(),
        field: cursor.field_name().map(str::to_string),
        depth: cursor.depth(),
        start_byte: node.start_byte(),
        end_byte: node.end_byte(),
        start_row: node.start_position().row as u32,
        end_row: node.end_position().row as u32,
    }
}

fn list_nodes(tree: &tree_sitter::Tree) -> (r: Vec<TreeNode>)
    ensures
        r.deep_view() == nodes_of(*tree),
{
    let ghost want = nodes_of(*tree);
    let n: usize = count_nodes(tree);
    let mut cursor = start_walk(tree);
    let mut out: Vec<TreeNode> = Vec::new();
    let mut i: usize = 0;
    assert(out.deep_view() =~= want.take(0));
    while i < n
        invariant
            i <= n,
            n == want.len(),
            nodes_under(cursor) == want,
            out.deep_view() == want.take(i as int),
        decreases n - i,
    {
        let ghost before = out.deep_view();
        let node = node_at(&mut cursor, i);
        let ghost one = node.deep_view();
        out.push(node);
        proof {
            assert(out.deep_view() =~= before.push(one));
            assert(want.take(i + 1) =~= want.take(i as int).push(want[i as int]));
        }
        i += 1;
    }
    assert(want.take(i as int) =~= want);
    out
}

/// Parses a source text into the nodes of its syntax tree.
pub fn parse(grammar: Grammar, source: &str) -> (r: Result<Option<Vec<TreeNode>>, String>)
    ensures
        match r {
            Ok(nodes) => grammar_error(grammar) is None && nodes.deep_view() == parsed(
                grammar,
                source@,
            ) && (nodes is Some && is_addressable(source@) ==> rows_count_feeds(
                source@,
                nodes.deep_view()->0,
            )),
            Err(e) => grammar_error(grammar) == Some(e@),
        },
{
    match parse_source(grammar, source) {
        Ok(Some(tree)) => Ok(Some(list_nodes(&tree))),
        Ok(None) => Ok(None),
        Err(e) => Err(e),
    }
}

// ---------------------------------------------------------------------------
// Moving about
// ---------------------------------------------------------------------------

/// The nodes from `j` on that are children of a node at depth `d` whose
/// subtree goes on at `j`.
pub open spec fn children_from(n: Seq<TreeNodeView>, d: int, j: int) -> Seq<int>
    decreases n.len() - j,
{
    if j < 0 || j >= n.len() || n[j].depth <= d {
        Seq::<int>::empty()
    } else if n[j].depth == d + 1 {
        seq![j] + children_from(n, d, j + 1)
    } else {
        children_from(n, d, j + 1)
    }
}

/// The children of a node, from left to right.
pub open spec fn children_of(n: Seq<TreeNodeView>, i: int) -> Seq<int> {
    children_from(n, n[i].depth as int, i + 1)
}

/// Where the subtree of a node at depth `d` that goes on at `j` ends.
pub open spec fn end_from(n: Seq<TreeNodeView>, d: int, j: int) -> int
    decreases n.len() - j,
{
    if j < 0 || j >= n.len() || n[j].depth <= d {
        j
    } else {
        end_from(n, d, j + 1)
    }
}

/// The end of a node's subtree: the node and its descendants are the nodes
/// from it up to there.
pub open spec fn subtree_end(n: Seq<TreeNodeView>, i: int) -> int {
    end_from(n, n[i].depth as int, i + 1)
}

/// The nearest node at depth `d` from `j` backwards, before any shallower one.
pub open spec fn sibling_back(n: Seq<TreeNodeView>, d: int, j: int) -> Option<int>
    decreases j + 1,
{
    if j < 0 || j >= n.len() || n[j].depth < d {
        None
    } else if n[j].depth == d {
        Some(j)
    } else {
        sibling_back(n, d, j - 1)
    }
}

/// The node before `i` under the same parent.
pub open spec fn prev_sibling_of(n: Seq<TreeNodeView>, i: int) -> Option<int> {
    sibling_back(n, n[i].depth as int, i - 1)
}

/// A node's previous sibling stands before it.
pub proof fn lemma_prev_sibling(n: Seq<TreeNodeView>, i: int)
    ensures
        prev_sibling_of(n, i) matches Some(p) ==> 0 <= p < i && p < n.len(),
{
    lemma_sibling_back(n, n[i].depth as int, i - 1);
}

proof fn lemma_sibling_back(n: Seq<TreeNodeView>, d: int, j: int)
    ensures
        sibling_back(n, d, j) matches Some(p) ==> 0 <= p <= j && p < n.len(),
    decreases j + 1,
{
    if 0 <= j < n.len() && n[j].depth > d {
        lemma_sibling_back(n, d, j - 1);
    }
}

/// The first of the nodes that is the field of that name.
pub open spec fn with_field(n: Seq<TreeNodeView>, at: Seq<int>, name: Seq<char>) -> Option<int>
    decreases at.len(),
{
    if at.len() == 0 {
        None
    } else if n[at[0]].field == Some(name) {
        Some(at[0])
    } else {
        with_field(n, at.drop_first(), name)
    }
}

/// A node's child in the field of that name.
pub open spec fn field_of(n: Seq<TreeNodeView>, i: int, name: Seq<char>) -> Option<int> {
    with_field(n, children_of(n, i), name)
}

/// The first of the nodes that itself has a child in the field of that name.
pub open spec fn with_child_field(n: Seq<TreeNodeView>, at: Seq<int>, name: Seq<char>) -> Option<
    int,
>
    decreases at.len(),
{
    if at.len() == 0 {
        None
    } else if field_of(n, at[0], name) is Some {
        Some(at[0])
    } else {
        with_child_field(n, at.drop_first(), name)
    }
}

/// The positions of a list, as mathematical integers.
pub open spec fn places(v: Seq<usize>) -> Seq<int> {
    v.map_values(|i: usize| i as int)
}

/// The children of a node.
pub fn children(nodes: &Vec<TreeNode>, i: usize) -> (r: Vec<usize>)
    requires
        i < nodes@.len(),
    ensures
        places(r@) == children_of(nodes.deep_view(), i as int),
        forall|k: int| 0 <= k < r@.len() ==> i < #[trigger] r@[k] < nodes@.len(),
{
    let ghost n = nodes.deep_view();
    let d: u32 = nodes[i].depth;
    let ghost all = children_of(n, i as int);
    let mut out: Vec<usize> = Vec::new();
    let len: usize = nodes.len();
    let mut j: usize = i + 1;
    assert(n[i as int].depth == d);
    assert(places(out@) + children_from(n, d as int, j as int) =~= all);
    while j < nodes.len() && nodes[j].depth > d
        invariant
            i < j <= nodes@.len(),
            n == nodes.deep_view(),
            all == places(out@) + children_from(n, d as int, j as int),
            forall|k: int| 0 <= k < out@.len() ==> i < #[trigger] out@[k] < nodes@.len(),
        decreases nodes@.len() - j,
    {
        assert(n[j as int].depth == nodes@[j as int].depth);
        if nodes[j].depth - d == 1 {
            let ghost before = places(out@);
            out.push(j);
            assert(places(out@) =~= before.push(j as int));
            assert(before + (seq![j as int] + children_from(n, d as int, j + 1)) =~= places(out@)
                + children_from(n, d as int, j + 1));
        }
        j += 1;
    }
    proof {
        if j < nodes@.len() {
            assert(n[j as int].depth == nodes@[j as int].depth);
        }
        assert(children_from(n, d as int, j as int) =~= Seq::<int>::empty());
        assert(places(out@) + Seq::<int>::empty() =~= places(out@));
    }
    out
}

/// The end of a node's subtree.
pub fn end_of(nodes: &Vec<TreeNode>, i: usize) -> (r: usize)
    requires
        i < nodes@.len(),
    ensures
        r == subtree_end(nodes.deep_view(), i as int),
        i < r <= nodes@.len(),
{
    let ghost n = nodes.deep_view();
    let d: u32 = nodes[i].depth;
    assert(n[i as int].depth == d);
    let len: usize = nodes.len();
    let mut j: usize = i + 1;
    while j < nodes.len() && nodes[j].depth > d
        invariant
            i < j <= nodes@.len(),
            n == nodes.deep_view(),
            subtree_end(n, i as int) == end_from(n, d as int, j as int),
        decreases nodes@.len() - j,
    {
        assert(n[j as int].depth == nodes@[j as int].depth);
        j += 1;
    }
    proof {
        if j < nodes@.len() {
            assert(n[j as int].depth == nodes@[j as int].depth);
        }
    }
    j
}

/// The node before another under the same parent.
pub fn prev_sibling(nodes: &Vec<TreeNode>, i: usize) -> (r: Option<usize>)
    requires
        i < nodes@.len(),
    ensures
        match r {
            Some(j) => prev_sibling_of(nodes.deep_view(), i as int) == Some(j as int) && j
                < nodes@.len(),
            None => prev_sibling_of(nodes.deep_view(), i as int) is None,
        },
{
    let ghost n = nodes.deep_view();
    let d: u32 = nodes[i].depth;
    assert(n[i as int].depth == d);
    let mut j: usize = i;
    while j > 0
        invariant
            j <= i < nodes@.len(),
            n == nodes.deep_view(),
            prev_sibling_of(n, i as int) == sibling_back(n, d as int, j - 1),
        decreases j,
    {
        j -= 1;
        assert(n[j as int].depth == nodes@[j as int].depth);
        if nodes[j].depth < d {
            return None;
        }
        if nodes[j].depth == d {
            return Some(j);
        }
    }
    None
}

/// A node's child in the field of that name.
pub fn child_by_field_name(nodes: &Vec<TreeNode>, i: usize, name: &str) -> (r: Option<usize>)
    requires
        i < nodes@.len(),
    ensures
        match r {
            Some(j) => field_of(nodes.deep_view(), i as int, name@) == Some(j as int) && i < j
                < nodes@.len(),
            None => field_of(nodes.deep_view(), i as int, name@) is None,
        },
{
    let ghost n = nodes.deep_view();
    let at = children(nodes, i);
    let ghost av = places(at@);
    let mut k: usize = 0;
    assert(av.skip(0) =~= av);
    while k < at.len()
        invariant
            k <= at@.len(),
            n == nodes.deep_view(),
            av == places(at@),
            av == children_of(n, i as int),
            forall|j: int| 0 <= j < at@.len() ==> i < #[trigger] at@[j] < nodes@.len(),
            with_field(n, av, name@) == with_field(n, av.skip(k as int), name@),
        decreases at@.len() - k,
    {
        let c: usize = at[k];
        proof {
            assert(av.skip(k as int)[0] == c);
            assert(av.skip(k as int).drop_first() =~= av.skip(k + 1));
            assert(n[c as int] == nodes@[c as int].deep_view());
        }
        if let Some(f) = &nodes[c].field {
            if same(f.as_str(), name) {
                return Some(c);
            }
        }
        k += 1;
    }
    None
}

/// The first child of a node that itself has a child in that field.
pub fn child_with_field(nodes: &Vec<TreeNode>, i: usize, name: &str) -> (r: Option<usize>)
    requires
        i < nodes@.len(),
    ensures
        match r {
            Some(j) => with_child_field(
                nodes.deep_view(),
                children_of(nodes.deep_view(), i as int),
                name@,
            ) == Some(j as int) && j < nodes@.len(),
            None => with_child_field(
                nodes.deep_view(),
                children_of(nodes.deep_view(), i as int),
                name@,
            ) is None,
        },
{
    let ghost n = nodes.deep_view();
    let at = children(nodes, i);
    let ghost av = places(at@);
    let mut k: usize = 0;
    assert(av.skip(0) =~= av);
    while k < at.len()
        invariant
            k <= at@.len(),
            n == nodes.deep_view(),
            av == places(at@),
            av == children_of(n, i as int),
            forall|j: int| 0 <= j < at@.len() ==> i < #[trigger] at@[j] < nodes@.len(),
            with_child_field(n, av, name@) == with_child_field(n, av.skip(k as int), name@),
        decreases at@.len() - k,
    {
        let c: usize = at[k];
        proof {
            assert(av.skip(k as int)[0] == c);
            assert(av.skip(k as int).drop_first() =~= av.skip(k + 1));
        }
        if child_by_field_name(nodes, c, name).is_some() {
            return Some(c);
        }
        k += 1;
    }
    None
}

// ---------------------------------------------------------------------------
// Laws
// ---------------------------------------------------------------------------

/// A node's children are the nodes one level below it that follow it before any node
/// of its own level or above, from left to right.
pub proof fn law_children(n: Seq<TreeNodeView>, i: int, j: int)
    requires
        0 <= i < n.len(),
    ensures
        children_of(n, i).contains(j) <==> {
            &&& i < j < n.len()
            &&& n[j].depth == n[i].depth + 1
            &&& forall|m: int| i < m <= j ==> (#[trigger] n[m]).depth > n[i].depth
        },
        forall|a: int, b: int|
            0 <= a < b < children_of(n, i).len() ==> #[trigger] children_of(n, i)[a]
                < #[trigger] children_of(n, i)[b],
{
    lemma_children_from(n, n[i].depth as int, i + 1, j);
}

proof fn lemma_children_from(n: Seq<TreeNodeView>, d: int, from: int, j: int)
    requires
        0 <= from <= n.len(),
    ensures
        children_from(n, d, from).contains(j) <==> {
            &&& from <= j < n.len()
            &&& n[j].depth == d + 1
            &&& forall|m: int| from <= m <= j ==> (#[trigger] n[m]).depth > d
        },
        forall|a: int|
            0 <= a < children_from(n, d, from).len() ==> from <= #[trigger] children_from(
                n,
                d,
                from,
            )[a],
        forall|a: int, b: int|
            0 <= a < b < children_from(n, d, from).len() ==> #[trigger] children_from(n, d, from)[a]
                < #[trigger] children_from(n, d, from)[b],
    decreases n.len() - from,
{
    let all = children_from(n, d, from);
    if from < n.len() && n[from].depth > d {
        lemma_children_from(n, d, from + 1, j);
        let rest = children_from(n, d, from + 1);
        if n[from].depth == d + 1 {
            assert(all[0] == from);
            assert(forall|a: int| 1 <= a < all.len() ==> #[trigger] all[a] == rest[a - 1]);
            if rest.contains(j) {
                let k = choose|k: int| 0 <= k < rest.len() && rest[k] == j;
                assert(all[k + 1] == j);
            }
            if all.contains(j) && j != from {
                let k = choose|k: int| 0 <= k < all.len() && all[k] == j;
                assert(rest[k - 1] == j);
            }
        }
        if rest.contains(j) {
            assert forall|m: int| from <= m <= j implies (#[trigger] n[m]).depth > d by {}
        }
    } else if from <= j < n.len() {
        assert(n[from].depth <= d);
    }
}

/// The subtree of a node ends before the first node of its own level or above.
pub proof fn law_subtree_end(n: Seq<TreeNodeView>, i: int)
    requires
        0 <= i < n.len(),
    ensures
        ({
            let e = subtree_end(n, i);
            &&& i < e <= n.len()
            &&& forall|m: int| i < m < e ==> (#[trigger] n[m]).depth > n[i].depth
            &&& e < n.len() ==> n[e].depth <= n[i].depth
        }),
{
    lemma_end_from(n, n[i].depth as int, i + 1);
}

proof fn lemma_end_from(n: Seq<TreeNodeView>, d: int, j: int)
    requires
        0 <= j <= n.len(),
    ensures
        ({
            let e = end_from(n, d, j);
            &&& j <= e <= n.len()
            &&& forall|m: int| j <= m < e ==> (#[trigger] n[m]).depth > d
            &&& e < n.len() ==> n[e].depth <= d
        }),
    decreases n.len() - j,
{
    if j < n.len() && n[j].depth > d {
        lemma_end_from(n, d, j + 1);
    }
}

/// The previous sibling of a node is the nearest node of its level before it, if all
/// between them are below; there is none where a node above comes first.
pub proof fn law_prev_sibling(n: Seq<TreeNodeView>, i: int)
    requires
        0 <= i < n.len(),
    ensures
        match prev_sibling_of(n, i) {
            Some(p) => {
                &&& 0 <= p < i
                &&& n[p].depth == n[i].depth
                &&& forall|m: int| p < m < i ==> (#[trigger] n[m]).depth > n[i].depth
            },
            None => forall|p: int|
                0 <= p < i && (#[trigger] n[p]).depth == n[i].depth ==> exists|m: int|
                    p < m < i && (#[trigger] n[m]).depth < n[i].depth,
        },
{
    lemma_nearest_sibling(n, n[i].depth as int, i - 1);
}

proof fn lemma_nearest_sibling(n: Seq<TreeNodeView>, d: int, j: int)
    requires
        -1 <= j < n.len(),
    ensures
        match sibling_back(n, d, j) {
            Some(p) => {
                &&& 0 <= p <= j
                &&& n[p].depth == d
                &&& forall|m: int| p < m <= j ==> (#[trigger] n[m]).depth > d
            },
            None => forall|p: int|
                0 <= p <= j && (#[trigger] n[p]).depth == d ==> exists|m: int|
                    p < m <= j && (#[trigger] n[m]).depth < d,
        },
    decreases j + 1,
{
    if j >= 0 {
        if n[j].depth > d {
            lemma_nearest_sibling(n, d, j - 1);
            if sibling_back(n, d, j) is None {
                assert forall|p: int| 0 <= p <= j && (#[trigger] n[p]).depth == d implies exists|
                    m: int,
                |
                    p < m <= j && (#[trigger] n[m]).depth < d by {
                    let m = choose|m: int| p < m <= j - 1 && (#[trigger] n[m]).depth < d;
                    assert(n[m].depth < d);
                }
            }
        } else if n[j].depth < d {
            assert forall|p: int| 0 <= p <= j && (#[trigger] n[p]).depth == d implies exists|
                m: int,
            |
                p < m <= j && (#[trigger] n[m]).depth < d by {
                assert(n[j].depth < d);
            }
        }
    }
}

} // verus!
