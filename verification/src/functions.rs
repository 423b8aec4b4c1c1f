//! Functions and their doc comments.
use vstd::prelude::*;

use crate::query::{CaptureView, QueryMatch, Role};
use crate::report::{Function, FunctionView};
use crate::text::{same_text, text_before, text_of, text_trim};
use crate::tree::{NodeShape, SyntaxTree};
use crate::{query, report, text, tree};

verus! {

/// Whether the lines of all nodes can be counted from one.
pub open spec fn lines_fit(nodes: Seq<NodeShape>) -> bool {
    forall|i: int|
        0 <= i < nodes.len() ==> (#[trigger] nodes[i]).start_row < usize::MAX && nodes[i].end_row
            < usize::MAX
}

/// The kinds of nodes that are comments.
pub open spec fn comment_kind(kind: Seq<char>) -> bool {
    kind == "comment"@ || kind == "line_comment"@ || kind == "block_comment"@
}

/// The doc comment of the node at `i`: the comment that is its last named
/// sibling before it, or its last sibling, or the one before a semicolon.
pub open spec fn doc_comment_of(nodes: Seq<NodeShape>, i: int, source: Seq<u8>) -> Option<
    Seq<char>,
> {
    let named = tree::prev_named_sibling_of(nodes, i);
    let any = tree::prev_sibling_of(nodes, i);
    if named is Some && comment_kind(nodes[named->0].kind) {
        tree::node_text(nodes[named->0], source)
    } else if any is None {
        None
    } else if comment_kind(nodes[any->0].kind) {
        tree::node_text(nodes[any->0], source)
    } else if nodes[any->0].kind == ";"@ {
        let earlier = tree::prev_sibling_of(nodes, any->0);
        if earlier is Some && comment_kind(nodes[earlier->0].kind) {
            tree::node_text(nodes[earlier->0], source)
        } else {
            None
        }
    } else {
        None
    }
}

/// The doc comment of a function: the one before the function as a whole, else
/// the one before its name.
pub open spec fn function_comment(
    nodes: Seq<NodeShape>,
    body: Option<int>,
    name: int,
    source: Seq<u8>,
) -> Option<Seq<char>> {
    match body {
        Some(b) => match doc_comment_of(nodes, b, source) {
            Some(comment) => Some(comment),
            None => doc_comment_of(nodes, name, source),
        },
        None => doc_comment_of(nodes, name, source),
    }
}

/// The signature of a function: its text up to the first brace.
pub open spec fn signature_of(whole: Seq<char>) -> Seq<char> {
    text::trim(text::before(whole, seq!['{']))
}

/// The function that a match names, if it names one.
pub open spec fn function_of(
    nodes: Seq<NodeShape>,
    captures: Seq<CaptureView>,
    source: Seq<u8>,
) -> Option<FunctionView> {
    match query::last_in_role(captures, Role::Name) {
        Some(n) => {
            let name = tree::text_or_empty(nodes[n], source);
            if name.len() == 0 {
                None
            } else {
                let body = query::last_in_role(captures, Role::Body);
                Some(
                    FunctionView {
                        name,
                        signature: match body {
                            Some(b) => signature_of(tree::text_or_empty(nodes[b], source)),
                            None => name,
                        },
                        line_start: nodes[n].start_row + 1,
                        line_end: match body {
                            Some(b) => nodes[b].end_row + 1,
                            None => nodes[n].end_row + 1,
                        },
                        doc_comment: function_comment(nodes, body, n, source),
                    },
                )
            }
        },
        None => None,
    }
}

/// Whether the match captures a function as a whole and a child of it as its
/// name.
pub open spec fn names_function(captures: Seq<CaptureView>, nodes: Seq<NodeShape>) -> bool {
    match (
        query::last_in_role(captures, Role::Name),
        query::last_in_role(captures, Role::Body),
    ) {
        (Some(n), Some(b)) => 0 <= n < nodes.len() && tree::parent_of(nodes, n) == Some(b),
        _ => false,
    }
}

/// Whether each of the matches captures a function and its name.
pub open spec fn all_name_functions(
    matches: Seq<Seq<CaptureView>>,
    nodes: Seq<NodeShape>,
) -> bool {
    forall|i: int| 0 <= i < matches.len() ==> names_function(#[trigger] matches[i], nodes)
}

/// Whether no function ends before it starts or after the line `last`.
pub open spec fn lines_in_order(functions: Seq<FunctionView>, last: nat) -> bool {
    forall|i: int|
        0 <= i < functions.len() ==> 1 <= (#[trigger] functions[i]).line_start
            <= functions[i].line_end <= last
}

/// The functions that the matches name, in their order.
pub open spec fn functions_of(
    nodes: Seq<NodeShape>,
    matches: Seq<Seq<CaptureView>>,
    source: Seq<u8>,
) -> Seq<FunctionView>
    decreases matches.len(),
{
    if matches.len() == 0 {
        Seq::empty()
    } else {
        let earlier = functions_of(nodes, matches.drop_last(), source);
        match function_of(nodes, matches.last(), source) {
            Some(function) => earlier.push(function),
            None => earlier,
        }
    }
}

fn is_comment(kind: &str) -> (yes: bool)
    ensures
        yes == comment_kind(kind@),
{
    same_text(kind, "comment") || same_text(kind, "line_comment") || same_text(
        kind,
        "block_comment",
    )
}

/// Extracts the doc comment that precedes the node at `i`.
pub fn extract_doc_comment(tree: &SyntaxTree, i: usize, source: &[u8]) -> (comment: Option<String>)
    requires
        i < tree@.len(),
    ensures
        report::optional_text(comment) == doc_comment_of(tree@, i as int, source@),
{
    if let Some(prev) = tree.prev_named_sibling(i) {
        if is_comment(tree.node(prev).kind) {
            return tree.text(prev, source);
        }
    }
    if let Some(prev) = tree.prev_sibling(i) {
        if is_comment(tree.node(prev).kind) {
            return tree.text(prev, source);
        }
        // A semicolon may stand between the comment and the node.
        if tree.is_kind(prev, ";") {
            if let Some(earlier) = tree.prev_sibling(prev) {
                if is_comment(tree.node(earlier).kind) {
                    return tree.text(earlier, source);
                }
            }
        }
    }
    None
}

/// The function that a match names, if it names one.
pub fn read_function(tree: &SyntaxTree, found: &QueryMatch, source: &[u8]) -> (function: Option<
    Function,
>)
    requires
        lines_fit(tree@),
        query::captures_within(found@, tree@.len()),
    ensures
        match function {
            Some(f) => function_of(tree@, found@, source@) == Some(f@),
            None => function_of(tree@, found@, source@) is None,
        },
{
    let n: usize = match found.last_node(Role::Name) {
        Some(node) => node,
        None => return None,
    };
    let name = tree.spelled(n, source);
    if name.len() == 0 {
        return None;
    }
    assert(tree@[n as int].start_row < usize::MAX);
    let function = match found.last_node(Role::Body) {
        Some(body) => {
            let brace: [char; 1] = ['{'];
            assert(brace@ =~= seq!['{']);
            assert(tree@[body as int].end_row < usize::MAX);
            let whole = tree.spelled(body, source);
            let doc_comment = match extract_doc_comment(tree, body, source) {
                Some(comment) => Some(comment),
                None => extract_doc_comment(tree, n, source),
            };
            Function {
                name: text_of(name.as_slice()),
                signature: text_of(text_trim(text_before(whole.as_slice(), &brace))),
                line_start: tree.node(n).start_row + 1,
                line_end: tree.node(body).end_row + 1,
                doc_comment,
            }
        },
        None => Function {
            name: text_of(name.as_slice()),
            signature: text_of(name.as_slice()),
            line_start: tree.node(n).start_row + 1,
            line_end: tree.node(n).end_row + 1,
            doc_comment: extract_doc_comment(tree, n, source),
        },
    };
    Some(function)
}

/// The functions that the matches name, in their order.
pub fn collect_functions(tree: &SyntaxTree, matches: &Vec<QueryMatch>, source: &[u8]) -> (functions:
    Vec<Function>)
    requires
        lines_fit(tree@),
        query::matches_within(query::match_views(matches@), tree@.len()),
    ensures
        report::function_views(functions@) == functions_of(
            tree@,
            query::match_views(matches@),
            source@,
        ),
{
    let ghost all = query::match_views(matches@);
    let mut functions: Vec<Function> = Vec::new();
    let mut i: usize = 0;
    assert(report::function_views(functions@) =~= Seq::empty());
    while i < matches.len()
        invariant
            i <= matches@.len(),
            all == query::match_views(matches@),
            lines_fit(tree@),
            query::matches_within(all, tree@.len()),
            report::function_views(functions@) == functions_of(
                tree@,
                all.take(i as int),
                source@,
            ),
        decreases matches@.len() - i,
    {
        assert(all[i as int] == matches@[i as int]@);
        assert(all.take(i + 1).drop_last() =~= all.take(i as int));
        let ghost earlier = report::function_views(functions@);
        if let Some(function) = read_function(tree, &matches[i], source) {
            functions.push(function);
            assert(report::function_views(functions@) =~= earlier.push(function@));
        }
        i += 1;
    }
    assert(all.take(i as int) =~= all);
    functions
}

/// Every function that is reported has a name, and its lines count from one.
pub proof fn law_functions_are_named(
    nodes: Seq<NodeShape>,
    matches: Seq<Seq<CaptureView>>,
    source: Seq<u8>,
    i: int,
)
    requires
        0 <= i < functions_of(nodes, matches, source).len(),
    ensures
        functions_of(nodes, matches, source)[i].name.len() > 0,
        functions_of(nodes, matches, source)[i].line_start >= 1,
        functions_of(nodes, matches, source)[i].line_end >= 1,
    decreases matches.len(),
{
    let earlier = functions_of(nodes, matches.drop_last(), source);
    if i < earlier.len() {
        law_functions_are_named(nodes, matches.drop_last(), source, i);
    }
}

/// The signature of a function never reaches into its body: it holds no brace,
/// and no white space stands at either end of it.
pub proof fn law_signature_stops_at_body(whole: Seq<char>)
    ensures
        !signature_of(whole).contains('{'),
        signature_of(whole).len() > 0 ==> !text::white_space(signature_of(whole).first())
            && !text::white_space(signature_of(whole).last()),
{
    let head = text::before(whole, seq!['{']);
    text::lemma_find(whole, seq!['{'], 0);
    assert forall|k: int| 0 <= k < head.len() implies head[k] != '{' by {
        if whole[k] == '{' {
            assert(whole.subrange(k, k + 1) =~= seq!['{']);
            assert(text::occurs_at(whole, seq!['{'], k));
        }
    }
    text::lemma_trim(head, text::CharSet::Blank);
}

proof fn lemma_prev_named(nodes: Seq<NodeShape>, i: int)
    ensures
        tree::prev_named_sibling_of(nodes, i) matches Some(j) ==> 0 <= j < i && nodes[j].depth
            == nodes[i].depth,
    decreases i,
{
    tree::lemma_last_within(nodes, i, nodes[i].depth as int);
    if let Some(j) = tree::prev_sibling_of(nodes, i) {
        lemma_prev_named(nodes, j);
    }
}

/// A doc comment is the text of a comment that stands before the node, on the
/// same level of the tree.
pub proof fn law_doc_comment_is_a_comment(nodes: Seq<NodeShape>, i: int, source: Seq<u8>)
    ensures
        doc_comment_of(nodes, i, source) matches Some(comment) ==> exists|c: int|
            0 <= c < i && comment_kind((#[trigger] nodes[c]).kind) && nodes[c].depth
                == nodes[i].depth && tree::node_text(nodes[c], source) == Some(comment),
{
    lemma_prev_named(nodes, i);
    tree::lemma_last_within(nodes, i, nodes[i].depth as int);
    if let Some(j) = tree::prev_sibling_of(nodes, i) {
        tree::lemma_last_within(nodes, j, nodes[j].depth as int);
    }
}

/// What a match shows does not depend on the other matches: the functions of two
/// lists of matches are those of the first, followed by those of the second.
pub proof fn law_functions_of_each_match(
    nodes: Seq<NodeShape>,
    first: Seq<Seq<CaptureView>>,
    second: Seq<Seq<CaptureView>>,
    source: Seq<u8>,
)
    ensures
        functions_of(nodes, first + second, source) == functions_of(nodes, first, source) + functions_of(
            nodes,
            second,
            source,
        ),
    decreases second.len(),
{
    if second.len() == 0 {
        assert(first + second =~= first);
    } else {
        law_functions_of_each_match(nodes, first, second.drop_last(), source);
        assert((first + second).drop_last() =~= first + second.drop_last());
        assert((first + second).last() == second.last());
    }
}

/// Where the rows of a tree are in order and `last` is the last of them, every
/// function that is reported ends on the line on which it starts or on a later
/// one, and not after the last line.
pub proof fn law_lines_are_in_order(
    nodes: Seq<NodeShape>,
    matches: Seq<Seq<CaptureView>>,
    source: Seq<u8>,
    last: nat,
)
    requires
        tree::rows_nested(nodes, last),
        all_name_functions(matches, nodes),
    ensures
        lines_in_order(functions_of(nodes, matches, source), last + 1),
    decreases matches.len(),
{
    if matches.len() > 0 {
        let earlier = matches.drop_last();
        assert forall|i: int| 0 <= i < earlier.len() implies names_function(
            #[trigger] earlier[i],
            nodes,
        ) by {
            assert(earlier[i] == matches[i]);
        }
        law_lines_are_in_order(nodes, earlier, source, last);
        let found = matches.last();
        assert(names_function(matches[matches.len() - 1], nodes));
        let n = query::last_in_role(found, Role::Name)->0;
        let b = query::last_in_role(found, Role::Body)->0;
        tree::lemma_last_within(nodes, n, nodes[n].depth - 1);
        assert(nodes[n].start_row <= nodes[n].end_row);
        assert(nodes[b].end_row <= last);
    }
}

/// The signature of a function is all of its text before the first brace, but
/// for the white space around it; of a text without a brace it is all of the
/// text.
pub proof fn law_signature_is_all_before_the_body(
    space: Seq<char>,
    head: Seq<char>,
    blank: Seq<char>,
    body: Seq<char>,
)
    requires
        forall|i: int| 0 <= i < space.len() ==> text::white_space(#[trigger] space[i]),
        head.len() > 0 ==> !text::white_space(head.first()) && !text::white_space(head.last()),
        !head.contains('{'),
        forall|i: int| 0 <= i < blank.len() ==> text::white_space(#[trigger] blank[i]),
    ensures
        signature_of(space + head + blank + seq!['{'] + body) == head,
        signature_of(space + head + blank) == head,
{
    let before = space + head + blank;
    let brace = seq!['{'];
    assert forall|i: int| 0 <= i < before.len() implies before[i] != '{' by {
        if i < space.len() {
            assert(before[i] == space[i]);
        } else if i < space.len() + head.len() {
            assert(head.contains(head[i - space.len()]));
        } else {
            assert(before[i] == blank[i - space.len() - head.len()]);
        }
    }
    text::lemma_find_mark(before, '{', body);
    assert((before + brace + body).take(before.len() as int) =~= before);
    text::lemma_contains_mark(before, '{');
    text::lemma_trim_around(space, head, blank);
}

/// A match that captures a name with a text shows one function: its name is that
/// text, it starts on the line on which the name starts, and it ends where the
/// captured function ends, or the name where none is captured. Its signature is
/// that of the whole text of the captured function, or else the name.
pub proof fn law_match_shows_one_function(
    nodes: Seq<NodeShape>,
    captures: Seq<CaptureView>,
    source: Seq<u8>,
    name: Seq<char>,
)
    requires
        query::last_in_role(captures, Role::Name) is Some,
        tree::node_text(nodes[query::last_in_role(captures, Role::Name)->0], source) == Some(name),
        name.len() > 0,
    ensures
        functions_of(nodes, seq![captures], source).len() == 1,
        ({
            let n = query::last_in_role(captures, Role::Name)->0;
            let function = functions_of(nodes, seq![captures], source)[0];
            &&& function.name == name
            &&& function.line_start == nodes[n].start_row + 1
            &&& match query::last_in_role(captures, Role::Body) {
                Some(b) => function.line_end == nodes[b].end_row + 1 && function.signature
                    == signature_of(tree::text_or_empty(nodes[b], source)),
                None => function.line_end == nodes[n].end_row + 1 && function.signature == name,
            }
        }),
{
    reveal_with_fuel(functions_of, 2);
    assert(seq![captures].drop_last() =~= Seq::empty());
    assert(seq![captures].last() == captures);
}

/// A match that captures no name, or one without a text, shows no function.
pub proof fn law_no_function_without_a_name(
    nodes: Seq<NodeShape>,
    captures: Seq<CaptureView>,
    source: Seq<u8>,
)
    requires
        match query::last_in_role(captures, Role::Name) {
            Some(n) => match tree::node_text(nodes[n], source) {
                Some(name) => name.len() == 0,
                None => true,
            },
            None => true,
        },
    ensures
        functions_of(nodes, seq![captures], source).len() == 0,
{
    reveal_with_fuel(functions_of, 2);
    assert(seq![captures].drop_last() =~= Seq::empty());
    assert(seq![captures].last() == captures);
}

/// The comment that is the sibling right before a node is its doc comment, and so
/// is one from which only unnamed nodes separate it. Comments of all grammars
/// count.
pub proof fn law_comment_before_a_node_is_found(
    nodes: Seq<NodeShape>,
    i: int,
    c: int,
    source: Seq<u8>,
)
    requires
        0 <= c < i,
        seq!["comment"@, "line_comment"@, "block_comment"@].contains(nodes[c].kind),
        nodes[c].named,
        nodes[c].depth == nodes[i].depth,
        forall|k: int|
            c < k < i ==> (#[trigger] nodes[k]).depth > nodes[i].depth || nodes[k].depth
                == nodes[i].depth && !nodes[k].named,
    ensures
        doc_comment_of(nodes, i, source) == tree::node_text(nodes[c], source),
{
    tree::law_named_sibling_is_the_last_named(nodes, i, c);
}

/// A semicolon may stand between a comment and the node, even where it is a named
/// node.
pub proof fn law_comment_before_a_semicolon_is_found(
    nodes: Seq<NodeShape>,
    i: int,
    s: int,
    c: int,
    source: Seq<u8>,
)
    requires
        0 <= c < s < i,
        seq!["comment"@, "line_comment"@, "block_comment"@].contains(nodes[c].kind),
        nodes[c].named || nodes[s].named,
        nodes[c].depth == nodes[i].depth,
        nodes[s].kind == ";"@,
        nodes[s].depth == nodes[i].depth,
        forall|k: int|
            c < k < i && k != s ==> (#[trigger] nodes[k]).depth > nodes[i].depth,
    ensures
        doc_comment_of(nodes, i, source) == tree::node_text(nodes[c], source),
{
    reveal_strlit(";");
    reveal_strlit("comment");
    reveal_strlit("line_comment");
    reveal_strlit("block_comment");
    assert(";"@.len() == 1 && "comment"@.len() == 7 && "line_comment"@.len() == 12
        && "block_comment"@.len() == 13);
    tree::law_sibling_is_the_last_as_deep(nodes, i, s);
    tree::law_sibling_is_the_last_as_deep(nodes, s, c);
    if nodes[s].named {
        tree::law_named_sibling_is_the_last_named(nodes, i, s);
    } else {
        tree::law_named_sibling_is_the_last_named(nodes, i, c);
    }
}

/// A node before which no comment stands on its level has no doc comment.
pub proof fn law_no_doc_comment_without_a_comment(
    nodes: Seq<NodeShape>,
    i: int,
    p: int,
    source: Seq<u8>,
)
    requires
        -1 <= p < i,
        p >= 0 ==> nodes[p].depth < nodes[i].depth,
        forall|k: int|
            p < k < i ==> (#[trigger] nodes[k]).depth > nodes[i].depth || nodes[k].depth
                == nodes[i].depth && !seq!["comment"@, "line_comment"@, "block_comment"@].contains(
                nodes[k].kind,
            ),
    ensures
        doc_comment_of(nodes, i, source) is None,
{
    let kinds = seq!["comment"@, "line_comment"@, "block_comment"@];
    assert(kinds[0] == "comment"@ && kinds[1] == "line_comment"@ && kinds[2] == "block_comment"@);
    lemma_siblings_after(nodes, i, p);
    if let Some(j) = tree::prev_sibling_of(nodes, i) {
        assert(p < j);
        lemma_siblings_after(nodes, j, p);
    }
}

/// No sibling before a node comes before its parent.
proof fn lemma_siblings_after(nodes: Seq<NodeShape>, i: int, p: int)
    requires
        -1 <= p < i,
        p >= 0 ==> nodes[p].depth < nodes[i].depth,
    ensures
        tree::prev_sibling_of(nodes, i) matches Some(j) ==> p < j < i && nodes[j].depth
            == nodes[i].depth,
        tree::prev_named_sibling_of(nodes, i) matches Some(j) ==> p < j < i && nodes[j].depth
            == nodes[i].depth,
    decreases i,
{
    tree::lemma_last_within(nodes, i, nodes[i].depth as int);
    if let Some(j) = tree::prev_sibling_of(nodes, i) {
        assert(p < j);
        lemma_siblings_after(nodes, j, p);
    }
}

/// A function has the comment before it as a whole; the one before its name only
/// where there is none.
pub proof fn law_comment_before_the_function_comes_first(
    nodes: Seq<NodeShape>,
    captures: Seq<CaptureView>,
    source: Seq<u8>,
)
    requires
        functions_of(nodes, seq![captures], source).len() == 1,
    ensures
        ({
            let n = query::last_in_role(captures, Role::Name)->0;
            let found = functions_of(nodes, seq![captures], source)[0].doc_comment;
            match query::last_in_role(captures, Role::Body) {
                Some(b) => {
                    &&& doc_comment_of(nodes, b, source) is Some ==> found == doc_comment_of(
                        nodes,
                        b,
                        source,
                    )
                    &&& doc_comment_of(nodes, b, source) is None ==> found == doc_comment_of(
                        nodes,
                        n,
                        source,
                    )
                },
                None => found == doc_comment_of(nodes, n, source),
            }
        }),
{
    reveal_with_fuel(functions_of, 2);
    assert(seq![captures].drop_last() =~= Seq::empty());
    assert(seq![captures].last() == captures);
}

/// A comment that is no named node counts where it is the sibling right before the
/// node, or before a semicolon there, unless the last named sibling is a comment.
pub proof fn law_unnamed_comment_is_found(
    nodes: Seq<NodeShape>,
    i: int,
    s: int,
    c: int,
    source: Seq<u8>,
)
    requires
        0 <= c < s <= i,
        seq!["comment"@, "line_comment"@, "block_comment"@].contains(nodes[c].kind),
        nodes[c].depth == nodes[i].depth,
        forall|k: int| c < k < i && k != s ==> (#[trigger] nodes[k]).depth > nodes[i].depth,
        s < i ==> nodes[s].kind == ";"@ && nodes[s].depth == nodes[i].depth,
        tree::prev_named_sibling_of(nodes, i) matches Some(n) ==> !seq![
            "comment"@,
            "line_comment"@,
            "block_comment"@,
        ].contains(nodes[n].kind),
    ensures
        doc_comment_of(nodes, i, source) == tree::node_text(nodes[c], source),
{
    reveal_strlit(";");
    reveal_strlit("comment");
    reveal_strlit("line_comment");
    reveal_strlit("block_comment");
    assert(";"@.len() == 1 && "comment"@.len() == 7 && "line_comment"@.len() == 12
        && "block_comment"@.len() == 13);
    let kinds = seq!["comment"@, "line_comment"@, "block_comment"@];
    assert(kinds[0] == "comment"@ && kinds[1] == "line_comment"@ && kinds[2] == "block_comment"@);
    if s < i {
        tree::law_sibling_is_the_last_as_deep(nodes, i, s);
        tree::law_sibling_is_the_last_as_deep(nodes, s, c);
    } else {
        tree::law_sibling_is_the_last_as_deep(nodes, i, c);
    }
}

} // verus!
