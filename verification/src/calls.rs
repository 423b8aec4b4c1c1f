//! Calls and the functions that make them.
use vstd::prelude::*;

use crate::query::{CaptureView, QueryMatch, Role};
use crate::report::{FunctionCall, FunctionCallView};
use crate::text::{same_text, text_of};
use crate::tree::{NodeShape, SyntaxTree};
use crate::{query, report, tree};

verus! {

/// The kinds of nodes that are functions with a name, of their own or that of a
/// variable.
pub open spec fn function_kind(kind: Seq<char>) -> bool {
    ||| kind == "function_declaration"@
    ||| kind == "method_definition"@
    ||| kind == "arrow_function"@
    ||| kind == "function_expression"@
    ||| kind == "generator_function"@
    ||| kind == "generator_function_declaration"@
    ||| kind == "method_declaration"@
    ||| kind == "function_item"@
}

/// The kinds of functions that may take the name of a variable.
pub open spec fn value_kind(kind: Seq<char>) -> bool {
    kind == "arrow_function"@ || kind == "function_expression"@ || kind == "generator_function"@
}

/// The kinds of nodes beyond which no enclosing function is looked for.
pub open spec fn boundary_kind(kind: Seq<char>) -> bool {
    kind == "program"@ || kind == "source_file"@
}

/// The kinds of nodes that name a function.
pub open spec fn name_kind(kind: Seq<char>) -> bool {
    ||| kind == "identifier"@
    ||| kind == "property_identifier"@
    ||| kind == "private_property_identifier"@
    ||| kind == "simple_identifier"@
    ||| kind == "field_identifier"@
}

/// The first named child of the node at `parent`, from the node at `from` on,
/// that is a name.
pub open spec fn name_child(nodes: Seq<NodeShape>, parent: int, from: int) -> Option<int>
    decreases nodes.len() - from,
{
    if from >= nodes.len() || nodes[from].depth <= nodes[parent].depth {
        None
    } else if nodes[from].depth == nodes[parent].depth + 1 && nodes[from].named && name_kind(
        nodes[from].kind,
    ) {
        Some(from)
    } else {
        name_child(nodes, parent, from + 1)
    }
}

/// The child that names the function at `i`. An arrow function has none: a name
/// among its children is a parameter.
pub open spec fn own_name(nodes: Seq<NodeShape>, i: int) -> Option<int> {
    if nodes[i].kind == "arrow_function"@ {
        None
    } else {
        name_child(nodes, i, i + 1)
    }
}

/// The name of the function at `i`: its own; failing that, where a function is
/// the value of a variable, what the declaration of the variable starts with.
pub open spec fn function_name(nodes: Seq<NodeShape>, i: int, source: Seq<u8>) -> Option<Seq<char>> {
    match own_name(nodes, i) {
        Some(child) => tree::node_text(nodes[child], source),
        None => if value_kind(nodes[i].kind) {
            match tree::parent_of(nodes, i) {
                Some(declarator) => if nodes[declarator].kind == "variable_declarator"@ {
                    match tree::first_child_of(nodes, declarator) {
                        Some(child) => tree::node_text(nodes[child], source),
                        None => None,
                    }
                } else {
                    None
                },
                None => None,
            }
        } else {
            None
        },
    }
}

/// The name of the function that encloses the node at `i`: that of its nearest
/// ancestor that is a function, unless a boundary comes first.
pub open spec fn enclosing_name(nodes: Seq<NodeShape>, i: int, source: Seq<u8>) -> Option<Seq<char>>
    decreases i,
    via enclosing_decreases
{
    match tree::parent_of(nodes, i) {
        Some(p) => if function_kind(nodes[p].kind) {
            function_name(nodes, p, source)
        } else if boundary_kind(nodes[p].kind) {
            None
        } else {
            enclosing_name(nodes, p, source)
        },
        None => None,
    }
}

#[via_fn]
proof fn enclosing_decreases(nodes: Seq<NodeShape>, i: int, source: Seq<u8>) {
    tree::lemma_last_within(nodes, i, nodes[i].depth - 1);
}

/// The call that a match shows: from the enclosing function to the captured
/// name, unless they are the same.
pub open spec fn call_of(
    nodes: Seq<NodeShape>,
    captures: Seq<CaptureView>,
    source: Seq<u8>,
) -> Option<FunctionCallView> {
    match query::last_in_role(captures, Role::Callee) {
        Some(n) => {
            let callee_name = tree::text_or_empty(nodes[n], source);
            match enclosing_name(nodes, n, source) {
                Some(caller_name) => if callee_name.len() == 0 || caller_name == callee_name {
                    None
                } else {
                    Some(FunctionCallView { caller_name, callee_name })
                },
                None => None,
            }
        },
        None => None,
    }
}

/// The calls that the matches show, in their order.
pub open spec fn calls_of(
    nodes: Seq<NodeShape>,
    matches: Seq<Seq<CaptureView>>,
    source: Seq<u8>,
) -> Seq<FunctionCallView>
    decreases matches.len(),
{
    if matches.len() == 0 {
        Seq::empty()
    } else {
        let earlier = calls_of(nodes, matches.drop_last(), source);
        match call_of(nodes, matches.last(), source) {
            Some(call) => earlier.push(call),
            None => earlier,
        }
    }
}

fn is_function(kind: &str) -> (yes: bool)
    ensures
        yes == function_kind(kind@),
{
    same_text(kind, "function_declaration") || same_text(kind, "method_definition") || same_text(
        kind,
        "arrow_function",
    ) || same_text(kind, "function_expression") || same_text(kind, "generator_function")
        || same_text(kind, "generator_function_declaration") || same_text(
        kind,
        "method_declaration",
    ) || same_text(kind, "function_item")
}

fn is_value(kind: &str) -> (yes: bool)
    ensures
        yes == value_kind(kind@),
{
    same_text(kind, "arrow_function") || same_text(kind, "function_expression") || same_text(
        kind,
        "generator_function",
    )
}

fn is_boundary(kind: &str) -> (yes: bool)
    ensures
        yes == boundary_kind(kind@),
{
    same_text(kind, "program") || same_text(kind, "source_file")
}

fn is_name(kind: &str) -> (yes: bool)
    ensures
        yes == name_kind(kind@),
{
    same_text(kind, "identifier") || same_text(kind, "property_identifier") || same_text(
        kind,
        "private_property_identifier",
    ) || same_text(kind, "simple_identifier") || same_text(kind, "field_identifier")
}

/// The first named child of the node at `parent` that is a name.
fn find_name_child(tree: &SyntaxTree, parent: usize) -> (child: Option<usize>)
    requires
        parent < tree@.len(),
    ensures
        match child {
            Some(c) => name_child(tree@, parent as int, parent + 1) == Some(c as int) && c
                < tree@.len(),
            None => name_child(tree@, parent as int, parent + 1) is None,
        },
{
    let count: usize = tree.len();
    let depth: usize = tree.node(parent).depth;
    let mut i: usize = parent + 1;
    while i < count && tree.node(i).depth > depth
        invariant
            parent < i <= count == tree@.len(),
            depth == tree@[parent as int].depth,
            name_child(tree@, parent as int, parent + 1) == name_child(
                tree@,
                parent as int,
                i as int,
            ),
        decreases count - i,
    {
        let node = tree.node(i);
        if node.depth - 1 == depth && node.named && is_name(node.kind) {
            return Some(i);
        }
        i += 1;
    }
    None
}

/// The name of the function at `i`.
pub fn name_of_function(tree: &SyntaxTree, i: usize, source: &[u8]) -> (name: Option<String>)
    requires
        i < tree@.len(),
    ensures
        report::optional_text(name) == function_name(tree@, i as int, source@),
{
    if !tree.is_kind(i, "arrow_function") {
        if let Some(child) = find_name_child(tree, i) {
            return tree.text(child, source);
        }
    }
    if is_value(tree.node(i).kind) {
        if let Some(declarator) = tree.parent(i) {
            if tree.is_kind(declarator, "variable_declarator") {
                if let Some(child) = tree.first_child(declarator) {
                    return tree.text(child, source);
                }
            }
        }
    }
    None
}

/// Walks up the syntax tree from the node at `i` to find the name of the
/// function that encloses it.
pub fn find_enclosing_function(tree: &SyntaxTree, i: usize, source: &[u8]) -> (name: Option<String>)
    requires
        i < tree@.len(),
    ensures
        report::optional_text(name) == enclosing_name(tree@, i as int, source@),
{
    let mut at: usize = i;
    loop
        invariant
            at <= i < tree@.len(),
            enclosing_name(tree@, i as int, source@) == enclosing_name(tree@, at as int, source@),
        decreases at,
    {
        match tree.parent(at) {
            Some(parent) => {
                let kind = tree.node(parent).kind;
                if is_function(kind) {
                    return name_of_function(tree, parent, source);
                }
                if is_boundary(kind) {
                    return None;
                }
                at = parent;
            },
            None => return None,
        }
    }
}

/// The call that a match shows.
pub fn read_call(tree: &SyntaxTree, found: &QueryMatch, source: &[u8]) -> (call: Option<
    FunctionCall,
>)
    requires
        query::captures_within(found@, tree@.len()),
    ensures
        match call {
            Some(c) => call_of(tree@, found@, source@) == Some(c@),
            None => call_of(tree@, found@, source@) is None,
        },
{
    let n: usize = match found.last_node(Role::Callee) {
        Some(node) => node,
        None => return None,
    };
    let callee = tree.spelled(n, source);
    if callee.len() == 0 {
        return None;
    }
    let callee_name = text_of(callee.as_slice());
    match find_enclosing_function(tree, n, source) {
        Some(caller_name) => {
            if same_text(caller_name.as_str(), callee_name.as_str()) {
                None
            } else {
                Some(FunctionCall { caller_name, callee_name })
            }
        },
        None => None,
    }
}

/// The calls that the matches show, in their order.
pub fn collect_calls(tree: &SyntaxTree, matches: &Vec<QueryMatch>, source: &[u8]) -> (calls: Vec<
    FunctionCall,
>)
    requires
        query::matches_within(query::match_views(matches@), tree@.len()),
    ensures
        report::call_views(calls@) == calls_of(tree@, query::match_views(matches@), source@),
{
    let ghost all = query::match_views(matches@);
    let mut calls: Vec<FunctionCall> = Vec::new();
    let mut i: usize = 0;
    assert(report::call_views(calls@) =~= Seq::empty());
    while i < matches.len()
        invariant
            i <= matches@.len(),
            all == query::match_views(matches@),
            query::matches_within(all, tree@.len()),
            report::call_views(calls@) == calls_of(tree@, all.take(i as int), source@),
        decreases matches@.len() - i,
    {
        assert(all[i as int] == matches@[i as int]@);
        assert(all.take(i + 1).drop_last() =~= all.take(i as int));
        let ghost earlier = report::call_views(calls@);
        if let Some(call) = read_call(tree, &matches[i], source) {
            calls.push(call);
            assert(report::call_views(calls@) =~= earlier.push(call@));
        }
        i += 1;
    }
    assert(all.take(i as int) =~= all);
    calls
}

/// No call is reported of a function to itself, or to a name that is empty.
pub proof fn law_no_call_to_itself(
    nodes: Seq<NodeShape>,
    matches: Seq<Seq<CaptureView>>,
    source: Seq<u8>,
    i: int,
)
    requires
        0 <= i < calls_of(nodes, matches, source).len(),
    ensures
        calls_of(nodes, matches, source)[i].caller_name != calls_of(
            nodes,
            matches,
            source,
        )[i].callee_name,
        calls_of(nodes, matches, source)[i].callee_name.len() > 0,
    decreases matches.len(),
{
    if i < calls_of(nodes, matches.drop_last(), source).len() {
        law_no_call_to_itself(nodes, matches.drop_last(), source, i);
    }
}

/// Whether the node at `i` lies below the node at `p`.
pub open spec fn lies_below(nodes: Seq<NodeShape>, i: int, p: int) -> bool {
    0 <= p < i && forall|k: int| p < k <= i ==> (#[trigger] nodes[k]).depth > nodes[p].depth
}

/// The name that a call is said to come from is that of a function that the
/// call lies in.
pub proof fn law_caller_encloses_call(nodes: Seq<NodeShape>, i: int, source: Seq<u8>)
    ensures
        enclosing_name(nodes, i, source) matches Some(name) ==> exists|p: int|
            lies_below(nodes, i, p) && function_kind(nodes[p].kind) && #[trigger] function_name(
                nodes,
                p,
                source,
            ) == Some(name),
    decreases i,
{
    tree::lemma_last_within(nodes, i, nodes[i].depth - 1);
    match tree::parent_of(nodes, i) {
        Some(q) => {
            assert(lies_below(nodes, i, q));
            if !function_kind(nodes[q].kind) && !boundary_kind(nodes[q].kind) {
                law_caller_encloses_call(nodes, q, source);
                if let Some(name) = enclosing_name(nodes, q, source) {
                    let p = choose|p: int|
                        lies_below(nodes, q, p) && function_kind(nodes[p].kind)
                            && #[trigger] function_name(nodes, p, source) == Some(name);
                    assert(lies_below(nodes, i, p));
                }
            }
        },
        None => {},
    }
}

/// What a match shows does not depend on the other matches: the calls of two
/// lists of matches are those of the first, followed by those of the second.
pub proof fn law_calls_of_each_match(
    nodes: Seq<NodeShape>,
    first: Seq<Seq<CaptureView>>,
    second: Seq<Seq<CaptureView>>,
    source: Seq<u8>,
)
    ensures
        calls_of(nodes, first + second, source) == calls_of(nodes, first, source) + calls_of(
            nodes,
            second,
            source,
        ),
    decreases second.len(),
{
    if second.len() == 0 {
        assert(first + second =~= first);
    } else {
        law_calls_of_each_match(nodes, first, second.drop_last(), source);
        assert((first + second).drop_last() =~= first + second.drop_last());
        assert((first + second).last() == second.last());
    }
}

/// The kinds of functions in the grammars: declarations, methods, arrow functions
/// and function expressions of scripts, functions and methods of Go, functions of
/// Kotlin and of Rust.
pub proof fn law_kinds_of_functions(kind: Seq<char>)
    ensures
        function_kind(kind) <==> seq![
            "function_declaration"@,
            "generator_function_declaration"@,
            "method_definition"@,
            "arrow_function"@,
            "function_expression"@,
            "generator_function"@,
            "method_declaration"@,
            "function_item"@,
        ].contains(kind),
        value_kind(kind) <==> seq![
            "arrow_function"@,
            "function_expression"@,
            "generator_function"@,
        ].contains(kind),
        boundary_kind(kind) <==> seq!["program"@, "source_file"@].contains(kind),
        name_kind(kind) <==> seq![
            "identifier"@,
            "property_identifier"@,
            "private_property_identifier"@,
            "simple_identifier"@,
            "field_identifier"@,
        ].contains(kind),
{
    let functions = seq![
        "function_declaration"@,
        "generator_function_declaration"@,
        "method_definition"@,
        "arrow_function"@,
        "function_expression"@,
        "generator_function"@,
        "method_declaration"@,
        "function_item"@,
    ];
    assert(functions[0] == "function_declaration"@ && functions[1]
        == "generator_function_declaration"@ && functions[2] == "method_definition"@
        && functions[3] == "arrow_function"@ && functions[4] == "function_expression"@
        && functions[5] == "generator_function"@ && functions[6] == "method_declaration"@
        && functions[7] == "function_item"@);
    let values = seq!["arrow_function"@, "function_expression"@, "generator_function"@];
    assert(values[0] == "arrow_function"@ && values[1] == "function_expression"@ && values[2]
        == "generator_function"@);
    let files = seq!["program"@, "source_file"@];
    assert(files[0] == "program"@ && files[1] == "source_file"@);
    let names = seq![
        "identifier"@,
        "property_identifier"@,
        "private_property_identifier"@,
        "simple_identifier"@,
        "field_identifier"@,
    ];
    assert(names[0] == "identifier"@ && names[1] == "property_identifier"@ && names[2]
        == "private_property_identifier"@ && names[3] == "simple_identifier"@ && names[4]
        == "field_identifier"@);
}

/// Whether a node of the kind ends the search for the function around a call: a
/// function, or the root of a file.
pub open spec fn ends_search(kind: Seq<char>) -> bool {
    seq![
        "function_declaration"@,
        "generator_function_declaration"@,
        "method_definition"@,
        "arrow_function"@,
        "function_expression"@,
        "generator_function"@,
        "method_declaration"@,
        "function_item"@,
        "program"@,
        "source_file"@,
    ].contains(kind)
}

proof fn lemma_ends_search(kind: Seq<char>)
    ensures
        ends_search(kind) <==> function_kind(kind) || boundary_kind(kind),
{
    law_kinds_of_functions(kind);
    let all = seq![
        "function_declaration"@,
        "generator_function_declaration"@,
        "method_definition"@,
        "arrow_function"@,
        "function_expression"@,
        "generator_function"@,
        "method_declaration"@,
        "function_item"@,
        "program"@,
        "source_file"@,
    ];
    assert(all[0] == "function_declaration"@ && all[1] == "generator_function_declaration"@
        && all[2] == "method_definition"@ && all[3] == "arrow_function"@ && all[4]
        == "function_expression"@ && all[5] == "generator_function"@ && all[6]
        == "method_declaration"@ && all[7] == "function_item"@ && all[8] == "program"@ && all[9]
        == "source_file"@);
}

/// A node in a function has the name of that function as its caller, whatever
/// stands in between, as long as that is no other function and no root of a file.
pub proof fn law_caller_is_the_nearest_function(
    nodes: Seq<NodeShape>,
    i: int,
    p: int,
    source: Seq<u8>,
)
    requires
        0 <= p < i,
        forall|k: int| p < k <= i ==> (#[trigger] nodes[k]).depth > nodes[p].depth,
        ends_search(nodes[p].kind),
        forall|k: int|
            p < k < i && (forall|m: int| k < m <= i ==> (#[trigger] nodes[m]).depth
                > nodes[k].depth) ==> !ends_search((#[trigger] nodes[k]).kind),
    ensures
        nodes[p].kind != "program"@ && nodes[p].kind != "source_file"@ ==> enclosing_name(
            nodes,
            i,
            source,
        ) == function_name(nodes, p, source),
        nodes[p].kind == "program"@ || nodes[p].kind == "source_file"@ ==> enclosing_name(
            nodes,
            i,
            source,
        ) is None,
    decreases i,
{
    lemma_ends_search(nodes[p].kind);
    law_kinds_of_functions(nodes[p].kind);
    tree::lemma_last_within(nodes, i, nodes[i].depth - 1);
    let q = tree::parent_of(nodes, i)->0;
    assert(nodes[i].depth > nodes[p].depth);
    assert(tree::parent_of(nodes, i) is Some && q >= p);
    if q == p {
        lemma_roots_are_no_functions(nodes[p].kind);
    } else {
        assert forall|m: int| q < m <= i implies (#[trigger] nodes[m]).depth > nodes[q].depth by {}
        assert(!ends_search(nodes[q].kind));
        lemma_ends_search(nodes[q].kind);
        assert forall|k: int|
            p < k < q && (forall|m: int| k < m <= q ==> (#[trigger] nodes[m]).depth
                > nodes[k].depth) implies !ends_search((#[trigger] nodes[k]).kind) by {
            assert forall|m: int| k < m <= i implies (#[trigger] nodes[m]).depth
                > nodes[k].depth by {
                if m > q {
                    assert(nodes[q].depth > nodes[k].depth);
                }
            }
        }
        law_caller_is_the_nearest_function(nodes, q, p, source);
    }
}

proof fn lemma_roots_are_no_functions(kind: Seq<char>)
    ensures
        kind == "program"@ || kind == "source_file"@ ==> !function_kind(kind),
{
    reveal_strlit("program");
    reveal_strlit("source_file");
    reveal_strlit("function_declaration");
    reveal_strlit("generator_function_declaration");
    reveal_strlit("method_definition");
    reveal_strlit("arrow_function");
    reveal_strlit("function_expression");
    reveal_strlit("generator_function");
    reveal_strlit("method_declaration");
    reveal_strlit("function_item");
    assert("program"@.len() == 7 && "source_file"@.len() == 11);
}

/// A node that lies in no function and in no file has no caller.
pub proof fn law_no_caller_outside_functions(nodes: Seq<NodeShape>, i: int, source: Seq<u8>)
    requires
        forall|k: int|
            0 <= k < i && (forall|m: int| k < m <= i ==> (#[trigger] nodes[m]).depth
                > nodes[k].depth) ==> !ends_search((#[trigger] nodes[k]).kind),
    ensures
        enclosing_name(nodes, i, source) is None,
    decreases i,
{
    tree::lemma_last_within(nodes, i, nodes[i].depth - 1);
    if let Some(q) = tree::parent_of(nodes, i) {
        assert forall|m: int| q < m <= i implies (#[trigger] nodes[m]).depth > nodes[q].depth by {}
        assert(!ends_search(nodes[q].kind));
        lemma_ends_search(nodes[q].kind);
        assert forall|k: int|
            0 <= k < q && (forall|m: int| k < m <= q ==> (#[trigger] nodes[m]).depth
                > nodes[k].depth) implies !ends_search((#[trigger] nodes[k]).kind) by {
            assert forall|m: int| k < m <= i implies (#[trigger] nodes[m]).depth
                > nodes[k].depth by {
                if m > q {
                    assert(nodes[q].depth > nodes[k].depth);
                }
            }
        }
        law_no_caller_outside_functions(nodes, q, source);
    }
}

/// Whether a named node of the kind names the function that it is a child of.
pub open spec fn names_its_parent(node: NodeShape) -> bool {
    node.named && seq![
        "identifier"@,
        "property_identifier"@,
        "private_property_identifier"@,
        "simple_identifier"@,
        "field_identifier"@,
    ].contains(node.kind)
}

proof fn lemma_name_child(nodes: Seq<NodeShape>, p: int, from: int, c: int)
    requires
        0 <= p < from <= c <= nodes.len(),
        forall|k: int| from <= k < c ==> (#[trigger] nodes[k]).depth > nodes[p].depth,
        forall|k: int|
            from <= k < c && (#[trigger] nodes[k]).depth == nodes[p].depth + 1
                ==> !names_its_parent(nodes[k]),
        c < nodes.len() ==> nodes[c].depth <= nodes[p].depth || nodes[c].depth == nodes[p].depth + 1
            && names_its_parent(nodes[c]),
    ensures
        name_child(nodes, p, from) == if c < nodes.len() && nodes[c].depth > nodes[p].depth {
            Some(c)
        } else {
            None
        },
    decreases c - from,
{
    if from < nodes.len() {
        law_kinds_of_functions(nodes[from].kind);
    }
    if from < c {
        lemma_name_child(nodes, p, from + 1, c);
    }
}

/// A function that is no arrow function goes by the first of its named children
/// that is a name.
pub proof fn law_function_goes_by_its_name(
    nodes: Seq<NodeShape>,
    p: int,
    c: int,
    source: Seq<u8>,
)
    requires
        0 <= p < c < nodes.len(),
        nodes[p].kind != "arrow_function"@,
        forall|k: int| p < k < c ==> (#[trigger] nodes[k]).depth > nodes[p].depth,
        forall|k: int|
            p < k < c && (#[trigger] nodes[k]).depth == nodes[p].depth + 1 ==> !names_its_parent(
                nodes[k],
            ),
        nodes[c].depth == nodes[p].depth + 1,
        names_its_parent(nodes[c]),
    ensures
        function_name(nodes, p, source) == tree::node_text(nodes[c], source),
{
    lemma_name_child(nodes, p, p + 1, c);
}

/// An arrow function, and a function expression without a name of its own, goes
/// by what the declaration of the variable starts with whose value it is; where it
/// is the value of no variable, it has no name.
pub proof fn law_value_goes_by_its_variable(
    nodes: Seq<NodeShape>,
    p: int,
    d: int,
    end: int,
    source: Seq<u8>,
)
    requires
        0 <= d < p < end <= nodes.len(),
        nodes[d].depth < nodes[p].depth,
        forall|k: int| d < k < p ==> (#[trigger] nodes[k]).depth >= nodes[p].depth,
        forall|k: int| p < k < end ==> (#[trigger] nodes[k]).depth > nodes[p].depth,
        end < nodes.len() ==> nodes[end].depth <= nodes[p].depth,
        nodes[p].kind == "arrow_function"@ || (nodes[p].kind == "function_expression"@
            || nodes[p].kind == "generator_function"@) && forall|k: int|
            p < k < end && (#[trigger] nodes[k]).depth == nodes[p].depth + 1 ==> !names_its_parent(
                nodes[k],
            ),
    ensures
        nodes[d].kind == "variable_declarator"@ ==> function_name(nodes, p, source)
            == tree::node_text(nodes[d + 1], source),
        nodes[d].kind != "variable_declarator"@ ==> function_name(nodes, p, source) is None,
{
    law_kinds_of_functions(nodes[p].kind);
    let values = seq!["arrow_function"@, "function_expression"@, "generator_function"@];
    assert(values[0] == "arrow_function"@ && values[1] == "function_expression"@ && values[2]
        == "generator_function"@);
    tree::law_parent_is_the_last_above(nodes, p, d);
    if d + 1 < p {
        assert(nodes[d + 1].depth >= nodes[p].depth);
    }
    if nodes[p].kind != "arrow_function"@ {
        lemma_name_child(nodes, p, p + 1, end);
    }
}

/// Another function without a name has none.
pub proof fn law_no_name_without_a_child(
    nodes: Seq<NodeShape>,
    p: int,
    end: int,
    source: Seq<u8>,
)
    requires
        0 <= p < end <= nodes.len(),
        forall|k: int| p < k < end ==> (#[trigger] nodes[k]).depth > nodes[p].depth,
        end < nodes.len() ==> nodes[end].depth <= nodes[p].depth,
        forall|k: int|
            p < k < end && (#[trigger] nodes[k]).depth == nodes[p].depth + 1 ==> !names_its_parent(
                nodes[k],
            ),
        !seq!["arrow_function"@, "function_expression"@, "generator_function"@].contains(
            nodes[p].kind,
        ),
    ensures
        function_name(nodes, p, source) is None,
{
    law_kinds_of_functions(nodes[p].kind);
    lemma_name_child(nodes, p, p + 1, end);
}

/// A match that captures a called name in a function with another name shows one
/// call, from that function to the name.
pub proof fn law_match_shows_one_call(
    nodes: Seq<NodeShape>,
    captures: Seq<CaptureView>,
    source: Seq<u8>,
    caller: Seq<char>,
    callee: Seq<char>,
)
    requires
        query::last_in_role(captures, Role::Callee) is Some,
        ({
            let n = query::last_in_role(captures, Role::Callee)->0;
            &&& tree::node_text(nodes[n], source) == Some(callee)
            &&& enclosing_name(nodes, n, source) == Some(caller)
        }),
        callee.len() > 0,
        caller != callee,
    ensures
        calls_of(nodes, seq![captures], source) == seq![
            FunctionCallView { caller_name: caller, callee_name: callee },
        ],
{
    reveal_with_fuel(calls_of, 2);
    assert(seq![captures].drop_last() =~= Seq::empty());
    assert(seq![captures].last() == captures);
    assert(calls_of(nodes, seq![captures], source) =~= seq![
        FunctionCallView { caller_name: caller, callee_name: callee },
    ]);
}

/// A match shows no call where it captures no called name, where the name has no
/// text, where it has no caller, and where a function calls itself.
pub proof fn law_match_shows_no_call(
    nodes: Seq<NodeShape>,
    captures: Seq<CaptureView>,
    source: Seq<u8>,
)
    requires
        match query::last_in_role(captures, Role::Callee) {
            Some(n) => tree::text_or_empty(nodes[n], source).len() == 0 || match enclosing_name(
                nodes,
                n,
                source,
            ) {
                Some(caller) => caller == tree::text_or_empty(nodes[n], source),
                None => true,
            },
            None => true,
        },
    ensures
        calls_of(nodes, seq![captures], source).len() == 0,
{
    reveal_with_fuel(calls_of, 2);
    assert(seq![captures].drop_last() =~= Seq::empty());
    assert(seq![captures].last() == captures);
}

} // verus!
