//! Syntax trees as plain values: the nodes in the order of a depth-first walk.
use vstd::prelude::*;
use vstd::slice::slice_subrange;

use crate::report;
use crate::text::{chars_of, same_text};

verus! {

/// What a syntax node says of itself.
pub struct NodeShape {
    pub kind: Seq<char>,
    pub named: bool,
    pub start_byte: nat,
    pub end_byte: nat,
    pub start_row: nat,
    pub end_row: nat,
    pub depth: nat,
}

/// A node of a syntax tree. Bytes and rows count from zero; the depth is the
/// number of ancestors.
#[derive(Debug, PartialEq, Eq)]
pub struct SyntaxNode {
    pub kind: &'static str,
    pub named: bool,
    pub start_byte: usize,
    pub end_byte: usize,
    pub start_row: usize,
    pub end_row: usize,
    pub depth: usize,
}

impl View for SyntaxNode {
    type V = NodeShape;

    open spec fn view(&self) -> NodeShape {
        NodeShape {
            kind: self.kind@,
            named: self.named,
            start_byte: self.start_byte as nat,
            end_byte: self.end_byte as nat,
            start_row: self.start_row as nat,
            end_row: self.end_row as nat,
            depth: self.depth as nat,
        }
    }
}

/// The shapes of `nodes`.
pub open spec fn shapes(nodes: Seq<SyntaxNode>) -> Seq<NodeShape> {
    nodes.map_values(|n: SyntaxNode| n@)
}

/// The text that `node` spans in `source`, where the span is text.
pub open spec fn node_text(node: NodeShape, source: Seq<u8>) -> Option<Seq<char>> {
    if node.start_byte <= node.end_byte <= source.len() && vstd::utf8::valid_utf8(
        source.subrange(node.start_byte as int, node.end_byte as int),
    ) {
        Some(vstd::utf8::decode_utf8(source.subrange(node.start_byte as int, node.end_byte as int)))
    } else {
        None
    }
}

/// The text that `node` spans in `source`, empty where it spans none.
pub open spec fn text_or_empty(node: NodeShape, source: Seq<u8>) -> Seq<char> {
    match node_text(node, source) {
        Some(text) => text,
        None => Seq::empty(),
    }
}

/// Whether the node at `i` can follow the one before it in a depth-first walk.
pub open spec fn follows(nodes: Seq<NodeShape>, i: int) -> bool {
    1 <= nodes[i].depth <= nodes[i - 1].depth + 1
}

/// Whether `nodes` is a tree in the order of a depth-first walk: one root, and
/// every other node a level below one of its predecessors.
pub open spec fn is_tree(nodes: Seq<NodeShape>) -> bool {
    &&& nodes.len() > 0
    &&& nodes[0].depth == 0
    &&& forall|i: int| 0 < i < nodes.len() ==> #[trigger] follows(nodes, i)
}

/// The last node before `i` that is no deeper than `depth`.
pub open spec fn last_within(nodes: Seq<NodeShape>, i: int, depth: int) -> Option<int>
    decreases i,
{
    if i <= 0 {
        None
    } else if nodes[i - 1].depth <= depth {
        Some(i - 1)
    } else {
        last_within(nodes, i - 1, depth)
    }
}

/// The first node from `i` on that is no deeper than `depth`; the number of
/// nodes where there is none.
pub open spec fn next_within(nodes: Seq<NodeShape>, i: int, depth: int) -> int
    decreases nodes.len() - i,
{
    if i >= nodes.len() {
        nodes.len() as int
    } else if nodes[i].depth <= depth {
        i
    } else {
        next_within(nodes, i + 1, depth)
    }
}

/// The parent of the node at `i`.
pub open spec fn parent_of(nodes: Seq<NodeShape>, i: int) -> Option<int> {
    last_within(nodes, i, nodes[i].depth - 1)
}

/// The sibling before the node at `i`.
pub open spec fn prev_sibling_of(nodes: Seq<NodeShape>, i: int) -> Option<int> {
    match last_within(nodes, i, nodes[i].depth as int) {
        Some(j) => if nodes[j].depth == nodes[i].depth {
            Some(j)
        } else {
            None
        },
        None => None,
    }
}

/// The last named sibling before the node at `i`.
pub open spec fn prev_named_sibling_of(nodes: Seq<NodeShape>, i: int) -> Option<int>
    decreases i,
    via prev_named_decreases
{
    match prev_sibling_of(nodes, i) {
        Some(j) => if nodes[j].named {
            Some(j)
        } else {
            prev_named_sibling_of(nodes, j)
        },
        None => None,
    }
}

#[via_fn]
proof fn prev_named_decreases(nodes: Seq<NodeShape>, i: int) {
    lemma_last_within(nodes, i, nodes[i].depth as int);
}

/// The first child of the node at `i`.
pub open spec fn first_child_of(nodes: Seq<NodeShape>, i: int) -> Option<int> {
    if i + 1 < nodes.len() && nodes[i + 1].depth > nodes[i].depth {
        Some(i + 1)
    } else {
        None
    }
}

/// The sibling after the node at `i`.
pub open spec fn next_sibling_of(nodes: Seq<NodeShape>, i: int) -> Option<int> {
    let end = next_within(nodes, i + 1, nodes[i].depth as int);
    if end < nodes.len() && nodes[end].depth == nodes[i].depth {
        Some(end)
    } else {
        None
    }
}

/// Whether the rows of the nodes are in order: no node ends before it starts or
/// after the row `last`, and every node lies within its parent.
pub open spec fn rows_nested(nodes: Seq<NodeShape>, last: nat) -> bool {
    &&& forall|i: int|
        0 <= i < nodes.len() ==> (#[trigger] nodes[i]).start_row <= nodes[i].end_row <= last
    &&& forall|i: int|
        0 <= i < nodes.len() ==> match #[trigger] parent_of(nodes, i) {
            Some(p) => nodes[p].start_row <= nodes[i].start_row && nodes[i].end_row
                <= nodes[p].end_row,
            None => true,
        }
}

/// What `last_within` gives: no node between it and `i` is as shallow.
pub proof fn lemma_last_within(nodes: Seq<NodeShape>, i: int, depth: int)
    ensures
        match last_within(nodes, i, depth) {
            Some(j) => 0 <= j < i && nodes[j].depth <= depth && forall|k: int|
                j < k < i ==> nodes[k].depth > depth,
            None => forall|k: int| 0 <= k < i ==> nodes[k].depth > depth,
        },
    decreases i,
{
    if i > 0 && nodes[i - 1].depth > depth {
        lemma_last_within(nodes, i - 1, depth);
    }
}

/// `last_within` does not change over nodes that are all deeper.
proof fn lemma_last_within_skips(nodes: Seq<NodeShape>, i: int, j: int, depth: int)
    requires
        0 <= j <= i,
        forall|k: int| j <= k < i ==> nodes[k].depth > depth,
    ensures
        last_within(nodes, i, depth) == last_within(nodes, j, depth),
    decreases i - j,
{
    if j < i {
        lemma_last_within_skips(nodes, i - 1, j, depth);
    }
}

/// What `next_within` gives: no node from `i` up to it is as shallow.
pub proof fn lemma_next_within(nodes: Seq<NodeShape>, i: int, depth: int)
    requires
        i <= nodes.len(),
    ensures
        i <= next_within(nodes, i, depth) <= nodes.len(),
        next_within(nodes, i, depth) < nodes.len() ==> nodes[next_within(nodes, i, depth)].depth
            <= depth,
        forall|k: int| i <= k < next_within(nodes, i, depth) ==> nodes[k].depth > depth,
    decreases nodes.len() - i,
{
    if i < nodes.len() && nodes[i].depth > depth {
        lemma_next_within(nodes, i + 1, depth);
    }
}

/// Every node of a tree but the root has a parent, one level above it.
pub proof fn lemma_parent(nodes: Seq<NodeShape>, i: int)
    requires
        is_tree(nodes),
        0 < i < nodes.len(),
    ensures
        parent_of(nodes, i) matches Some(p) && 0 <= p < i && nodes[p].depth == nodes[i].depth - 1,
{
    assert(follows(nodes, i));
    lemma_last_within(nodes, i, nodes[i].depth - 1);
    match parent_of(nodes, i) {
        Some(p) => {
            if p + 1 < i {
                assert(follows(nodes, p + 1));
            }
        },
        None => {},
    }
}

/// `core::str::from_utf8` gives the text that the bytes encode, and an error
/// exactly where they are not UTF-8.
#[verifier::external_body]
fn decode<'a>(bytes: &'a [u8]) -> (text: Option<&'a str>)
    ensures
        text is Some <==> vstd::utf8::valid_utf8(bytes@),
        text matches Some(s) ==> s@ == vstd::utf8::decode_utf8(bytes@),
{
    core::str::from_utf8(bytes).ok()
}

impl SyntaxNode {
    /// The text that the node spans in `source`. There is none where the span
    /// reaches beyond `source` or is not UTF-8.
    pub fn text<'a>(&self, source: &'a [u8]) -> (text: Option<&'a str>)
        ensures
            match text {
                Some(s) => node_text(self@, source@) == Some(s@),
                None => node_text(self@, source@) is None,
            },
    {
        if self.start_byte <= self.end_byte && self.end_byte <= source.len() {
            decode(slice_subrange(source, self.start_byte, self.end_byte))
        } else {
            None
        }
    }
}

/// A syntax tree.
#[derive(Debug)]
pub struct SyntaxTree {
    nodes: Vec<SyntaxNode>,
    parents: Vec<usize>,
}

impl View for SyntaxTree {
    type V = Seq<NodeShape>;

    closed spec fn view(&self) -> Seq<NodeShape> {
        shapes(self.nodes@)
    }
}

impl SyntaxTree {
    #[verifier::type_invariant]
    spec fn well_formed(self) -> bool {
        &&& is_tree(shapes(self.nodes@))
        &&& self.parents@.len() == self.nodes@.len()
        &&& forall|i: int|
            0 < i < self.parents@.len() ==> parent_of(shapes(self.nodes@), i) == Some(
                #[trigger] self.parents@[i] as int,
            )
    }

    /// The tree whose nodes are `nodes`, in the order of a depth-first walk.
    /// There is none where the depths are not those of such a walk.
    pub fn new(nodes: Vec<SyntaxNode>) -> (tree: Option<SyntaxTree>)
        ensures
            match tree {
                Some(t) => is_tree(shapes(nodes@)) && t@ == shapes(nodes@),
                None => !is_tree(shapes(nodes@)),
            },
    {
        let ghost model = shapes(nodes@);
        if nodes.len() == 0 || nodes[0].depth != 0 {
            return None;
        }
        let mut parents: Vec<usize> = Vec::new();
        parents.push(0);
        let mut i: usize = 1;
        while i < nodes.len()
            invariant
                1 <= i <= nodes@.len(),
                model == shapes(nodes@),
                model[0].depth == 0,
                parents@.len() == i,
                forall|k: int| 0 < k < i ==> #[trigger] follows(model, k),
                forall|k: int|
                    0 < k < i ==> parent_of(model, k) == Some(#[trigger] parents@[k] as int),
            decreases nodes@.len() - i,
        {
            let depth: usize = nodes[i].depth;
            assert(model[i as int].depth == depth);
            assert(model[i - 1].depth == nodes@[i - 1].depth);
            if depth == 0 || depth - 1 > nodes[i - 1].depth {
                assert(!follows(model, i as int));
                return None;
            }
            assert(follows(model, i as int));
            let mut j: usize = i - 1;
            while nodes[j].depth >= depth
                invariant
                    0 <= j < i < nodes@.len(),
                    depth >= 1,
                    model == shapes(nodes@),
                    model[0].depth == 0,
                    parents@.len() == i,
                    forall|k: int|
                        0 < k < i ==> parent_of(model, k) == Some(#[trigger] parents@[k] as int),
                    forall|k: int| j < k < i ==> model[k].depth > depth - 1,
                decreases j,
            {
                assert(model[j as int].depth == nodes@[j as int].depth);
                let up: usize = parents[j];
                proof {
                    lemma_last_within(model, j as int, model[j as int].depth - 1);
                }
                j = up;
            }
            proof {
                assert(model[j as int].depth == nodes@[j as int].depth);
                lemma_last_within_skips(model, i as int, j + 1, depth - 1);
                assert(parent_of(model, i as int) == Some(j as int));
            }
            parents.push(j);
            i += 1;
        }
        Some(SyntaxTree { nodes, parents })
    }

    /// The number of nodes.
    pub fn len(&self) -> (count: usize)
        ensures
            count == self@.len(),
    {
        self.nodes.len()
    }

    /// The node at `i`.
    pub fn node(&self, i: usize) -> (node: &SyntaxNode)
        requires
            i < self@.len(),
        ensures
            node@ == self@[i as int],
    {
        &self.nodes[i]
    }

    /// The text of the node at `i`, if it spans text.
    pub fn text(&self, i: usize, source: &[u8]) -> (text: Option<String>)
        requires
            i < self@.len(),
        ensures
            report::optional_text(text) == node_text(self@[i as int], source@),
    {
        match self.node(i).text(source) {
            Some(text) => Some(text.to_string()),
            None => None,
        }
    }

    /// The characters of the text of the node at `i`, none where it spans no
    /// text.
    pub fn spelled(&self, i: usize, source: &[u8]) -> (chars: Vec<char>)
        requires
            i < self@.len(),
        ensures
            chars@ == text_or_empty(self@[i as int], source@),
    {
        match self.node(i).text(source) {
            Some(text) => chars_of(text),
            None => Vec::new(),
        }
    }

    /// Whether the node at `i` is of the kind.
    pub fn is_kind(&self, i: usize, kind: &str) -> (yes: bool)
        requires
            i < self@.len(),
        ensures
            yes == (self@[i as int].kind == kind@),
    {
        same_text(self.node(i).kind, kind)
    }

    /// The parent of the node at `i`.
    pub fn parent(&self, i: usize) -> (parent: Option<usize>)
        requires
            i < self@.len(),
        ensures
            match parent {
                Some(p) => parent_of(self@, i as int) == Some(p as int) && p < i,
                None => parent_of(self@, i as int) is None,
            },
    {
        proof {
            use_type_invariant(self);
        }
        if i == 0 {
            None
        } else {
            proof {
                lemma_parent(self@, i as int);
            }
            Some(self.parents[i])
        }
    }

    /// The sibling before the node at `i`.
    pub fn prev_sibling(&self, i: usize) -> (sibling: Option<usize>)
        requires
            i < self@.len(),
        ensures
            match sibling {
                Some(s) => prev_sibling_of(self@, i as int) == Some(s as int) && s < i,
                None => prev_sibling_of(self@, i as int) is None,
            },
    {
        let depth: usize = self.nodes[i].depth;
        let mut j: usize = i;
        while j > 0
            invariant
                j <= i < self@.len(),
                self@[i as int].depth == depth,
                last_within(self@, i as int, depth as int) == last_within(
                    self@,
                    j as int,
                    depth as int,
                ),
            decreases j,
        {
            j -= 1;
            assert(self@[j as int].depth == self.nodes@[j as int].depth);
            if self.nodes[j].depth == depth {
                return Some(j);
            }
            if self.nodes[j].depth < depth {
                return None;
            }
        }
        None
    }

    /// The last named sibling before the node at `i`.
    pub fn prev_named_sibling(&self, i: usize) -> (sibling: Option<usize>)
        requires
            i < self@.len(),
        ensures
            match sibling {
                Some(s) => prev_named_sibling_of(self@, i as int) == Some(s as int) && s < i,
                None => prev_named_sibling_of(self@, i as int) is None,
            },
    {
        let mut at: usize = i;
        loop
            invariant
                at <= i < self@.len(),
                prev_named_sibling_of(self@, i as int) == prev_named_sibling_of(self@, at as int),
            decreases at,
        {
            match self.prev_sibling(at) {
                Some(s) => {
                    if self.node(s).named {
                        return Some(s);
                    }
                    at = s;
                },
                None => return None,
            }
        }
    }

    /// The sibling after the node at `i`.
    pub fn next_sibling(&self, i: usize) -> (sibling: Option<usize>)
        requires
            i < self@.len(),
        ensures
            match sibling {
                Some(s) => next_sibling_of(self@, i as int) == Some(s as int) && s < self@.len(),
                None => next_sibling_of(self@, i as int) is None,
            },
    {
        let count: usize = self.nodes.len();
        let depth: usize = self.nodes[i].depth;
        let mut j: usize = i + 1;
        while j < count && self.nodes[j].depth > depth
            invariant
                i < j <= count == self@.len() == self.nodes@.len(),
                self@[i as int].depth == depth,
                next_within(self@, i + 1, depth as int) == next_within(
                    self@,
                    j as int,
                    depth as int,
                ),
            decreases self@.len() - j,
        {
            assert(self@[j as int].depth == self.nodes@[j as int].depth);
            j += 1;
        }
        if j < count && self.nodes[j].depth == depth {
            assert(self@[j as int].depth == self.nodes@[j as int].depth);
            Some(j)
        } else {
            proof {
                if j < self@.len() {
                    assert(self@[j as int].depth == self.nodes@[j as int].depth);
                }
            }
            None
        }
    }

    /// The first child of the node at `i`.
    pub fn first_child(&self, i: usize) -> (child: Option<usize>)
        requires
            i < self@.len(),
        ensures
            match child {
                Some(c) => first_child_of(self@, i as int) == Some(c as int) && c < self@.len(),
                None => first_child_of(self@, i as int) is None,
            },
    {
        if i < self.nodes.len() - 1 && self.nodes[i + 1].depth > self.nodes[i].depth {
            Some(i + 1)
        } else {
            None
        }
    }
}

/// The text of a node is the one whose bytes stand in its span.
pub proof fn law_text_of_a_span(node: NodeShape, before: Seq<u8>, text: Seq<char>, rest: Seq<u8>)
    requires
        node.start_byte == before.len(),
        node.end_byte == before.len() + vstd::utf8::encode_utf8(text).len(),
    ensures
        node_text(node, before + vstd::utf8::encode_utf8(text) + rest) == Some(text),
        text_or_empty(node, before + vstd::utf8::encode_utf8(text) + rest) == text,
{
    let bytes = vstd::utf8::encode_utf8(text);
    vstd::utf8::encode_utf8_valid_utf8(text);
    vstd::utf8::encode_utf8_decode_utf8(text);
    assert((before + bytes + rest).subrange(node.start_byte as int, node.end_byte as int) =~= bytes);
}

/// A node whose span reaches beyond the source, or is not UTF-8, has no text.
pub proof fn law_no_text_outside_the_source(node: NodeShape, source: Seq<u8>)
    ensures
        node_text(node, source) is None <==> node.start_byte > node.end_byte || node.end_byte
            > source.len() || !vstd::utf8::valid_utf8(
            source.subrange(node.start_byte as int, node.end_byte as int),
        ),
        node_text(node, source) is None ==> text_or_empty(node, source).len() == 0,
{
}

/// The parent of a node is the last node before it that is less deep.
pub proof fn law_parent_is_the_last_above(nodes: Seq<NodeShape>, i: int, p: int)
    requires
        -1 <= p < i,
        p >= 0 ==> nodes[p].depth < nodes[i].depth,
        forall|k: int| p < k < i ==> (#[trigger] nodes[k]).depth >= nodes[i].depth,
    ensures
        parent_of(nodes, i) == if p >= 0 {
            Some(p)
        } else {
            None
        },
{
    lemma_last_within(nodes, i, nodes[i].depth - 1);
}

/// The sibling before a node is the last node before it that is as deep, with
/// only deeper nodes in between; where a less deep one comes first, there is none.
pub proof fn law_sibling_is_the_last_as_deep(nodes: Seq<NodeShape>, i: int, j: int)
    requires
        -1 <= j < i,
        j >= 0 ==> nodes[j].depth <= nodes[i].depth,
        forall|k: int| j < k < i ==> (#[trigger] nodes[k]).depth > nodes[i].depth,
    ensures
        prev_sibling_of(nodes, i) == if j >= 0 && nodes[j].depth == nodes[i].depth {
            Some(j)
        } else {
            None
        },
{
    lemma_last_within(nodes, i, nodes[i].depth as int);
}

/// The named sibling before a node is the last named one of the nodes before it
/// that are as deep, up to the parent.
pub proof fn law_named_sibling_is_the_last_named(nodes: Seq<NodeShape>, i: int, j: int)
    requires
        -1 <= j < i,
        j >= 0 ==> nodes[j].depth < nodes[i].depth || nodes[j].depth == nodes[i].depth
            && nodes[j].named,
        forall|k: int|
            j < k < i ==> (#[trigger] nodes[k]).depth > nodes[i].depth || nodes[k].depth
                == nodes[i].depth && !nodes[k].named,
    ensures
        prev_named_sibling_of(nodes, i) == if j >= 0 && nodes[j].depth == nodes[i].depth {
            Some(j)
        } else {
            None
        },
    decreases i,
{
    lemma_last_within(nodes, i, nodes[i].depth as int);
    if let Some(s) = prev_sibling_of(nodes, i) {
        if s > j {
            law_named_sibling_is_the_last_named(nodes, s, j);
        }
    }
}

/// The first child of a node follows it at once, and is deeper.
pub proof fn law_first_child_comes_next(nodes: Seq<NodeShape>, i: int)
    ensures
        first_child_of(nodes, i) is Some <==> i + 1 < nodes.len() && nodes[i + 1].depth
            > nodes[i].depth,
        first_child_of(nodes, i) matches Some(c) ==> c == i + 1,
{
}

/// The sibling after a node is the first node after it that is as deep, with
/// only deeper nodes in between.
pub proof fn law_next_sibling_is_the_first_as_deep(nodes: Seq<NodeShape>, i: int, j: int)
    requires
        0 <= i < j <= nodes.len(),
        j < nodes.len() ==> nodes[j].depth <= nodes[i].depth,
        forall|k: int| i < k < j ==> (#[trigger] nodes[k]).depth > nodes[i].depth,
    ensures
        next_sibling_of(nodes, i) == if j < nodes.len() && nodes[j].depth == nodes[i].depth {
            Some(j)
        } else {
            None
        },
{
    lemma_next_within(nodes, i + 1, nodes[i].depth as int);
}

/// Trees grow node by node: a root alone is one, and a node can follow a tree
/// exactly where it is a level below one of the nodes that are still open.
pub proof fn law_trees_grow_node_by_node(nodes: Seq<NodeShape>, node: NodeShape)
    ensures
        is_tree(seq![node]) <==> node.depth == 0,
        nodes.len() > 0 ==> (is_tree(nodes.push(node)) <==> is_tree(nodes) && 1 <= node.depth
            <= nodes.last().depth + 1),
{
    let more = nodes.push(node);
    if nodes.len() > 0 {
        let last = nodes.len() as int;
        assert(more[last] == node && more[last - 1] == nodes.last());
        if is_tree(more) {
            assert forall|i: int| 0 < i < nodes.len() implies #[trigger] follows(nodes, i) by {
                assert(follows(more, i));
            }
            assert(follows(more, last));
        }
        if is_tree(nodes) && 1 <= node.depth <= nodes.last().depth + 1 {
            assert forall|i: int| 0 < i < more.len() implies #[trigger] follows(more, i) by {
                if i < last {
                    assert(follows(nodes, i));
                }
            }
        }
    }
}

/// The shape of a node holds its fields.
pub proof fn law_shape_holds_the_fields(node: SyntaxNode)
    ensures
        node@.kind == node.kind@,
        node@.named == node.named,
        node@.start_byte == node.start_byte && node@.end_byte == node.end_byte,
        node@.start_row == node.start_row && node@.end_row == node.end_row,
        node@.depth == node.depth,
{
}

} // verus!
