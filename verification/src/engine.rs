//! What is relied on of the tree-sitter library, and its syntax trees and query
//! matches turned into plain values.
use std::collections::HashMap;

use tree_sitter::{Language, Query, Tree, TreeCursor};
use vstd::prelude::*;

use crate::language::LangId;
use crate::query::{Capture, CaptureView, QueryMatch};
use crate::tree::{NodeShape, SyntaxNode, SyntaxTree};
use crate::{functions, grammar, query, text, tree};

verus! {

/// A grammar.
#[verifier::external_type_specification]
#[verifier::external_body]
pub struct ExLanguage(Language);

/// A compiled set of patterns.
#[verifier::external_type_specification]
#[verifier::external_body]
pub struct ExQuery(Query);

/// A syntax tree.
#[verifier::external_type_specification]
#[verifier::external_body]
pub struct ExTree(Tree);

/// A place in a syntax tree.
#[verifier::external_type_specification]
#[verifier::external_body]
pub struct ExTreeCursor<'cursor>(TreeCursor<'cursor>);

/// What a tree holds: the grammar and the text that it was parsed from, its
/// nodes in the order of a depth-first walk, and the numbers by which
/// tree-sitter tells the nodes of this tree apart, in the same order.
pub struct TreeModel {
    pub language: LangId,
    pub text: Seq<char>,
    pub nodes: Seq<NodeShape>,
    pub ids: Seq<usize>,
}

/// What a query was compiled from.
pub struct QueryModel {
    pub language: LangId,
    pub text: Seq<char>,
}

/// The language whose grammar it is.
pub uninterp spec fn language_id(language: Language) -> LangId;

/// What the query was compiled from.
pub uninterp spec fn query_model(query: Query) -> QueryModel;

/// What the tree holds.
pub uninterp spec fn tree_model(tree: Tree) -> TreeModel;

/// What the tree holds that the cursor walks.
pub uninterp spec fn cursor_model(cursor: TreeCursor<'_>) -> TreeModel;

/// The place of the node that the cursor is at, in the order of a depth-first
/// walk.
pub uninterp spec fn cursor_place(cursor: TreeCursor<'_>) -> int;

/// The nodes of the tree that a text is parsed to in a language, in the order
/// of a depth-first walk; none where the text cannot be parsed at all. The
/// grammars ask the C library for the classes of characters, which go by its
/// locale: that there is one outcome for each text rests on nothing here
/// setting a locale.
pub uninterp spec fn parse_outcome(language: LangId, text: Seq<char>) -> Option<Seq<NodeShape>>;

/// What is wrong with the text of a query in a language, if anything is.
pub uninterp spec fn query_fault(language: LangId, text: Seq<char>) -> Option<Seq<char>>;

/// The matches of a query in the tree that a text is parsed to, in order: for
/// each the captures, with the places of their nodes.
pub uninterp spec fn query_matches(language: LangId, query: Seq<char>, text: Seq<char>) -> Seq<
    Seq<CaptureView>,
>;

/// `tree_sitter_typescript::LANGUAGE_TYPESCRIPT` is the grammar of TypeScript.
#[verifier::external_body]
fn typescript() -> (language: Language)
    ensures
        language_id(language) == LangId::TypeScript,
{
    tree_sitter_typescript::LANGUAGE_TYPESCRIPT.into()
}

/// `tree_sitter_typescript::LANGUAGE_TSX` is the grammar of TSX.
#[verifier::external_body]
fn tsx() -> (language: Language)
    ensures
        language_id(language) == LangId::Tsx,
{
    tree_sitter_typescript::LANGUAGE_TSX.into()
}

/// `tree_sitter_javascript::LANGUAGE` is the grammar of JavaScript.
#[verifier::external_body]
fn javascript() -> (language: Language)
    ensures
        language_id(language) == LangId::JavaScript,
{
    tree_sitter_javascript::LANGUAGE.into()
}

/// `tree_sitter_kotlin_ng::LANGUAGE` is the grammar of Kotlin.
#[verifier::external_body]
fn kotlin() -> (language: Language)
    ensures
        language_id(language) == LangId::Kotlin,
{
    tree_sitter_kotlin_ng::LANGUAGE.into()
}

/// `tree_sitter_go::LANGUAGE` is the grammar of Go.
#[verifier::external_body]
fn go() -> (language: Language)
    ensures
        language_id(language) == LangId::Go,
{
    tree_sitter_go::LANGUAGE.into()
}

/// `tree_sitter_rust::LANGUAGE` is the grammar of Rust.
#[verifier::external_body]
fn rust() -> (language: Language)
    ensures
        language_id(language) == LangId::Rust,
{
    tree_sitter_rust::LANGUAGE.into()
}

/// `tree_sitter_html::LANGUAGE` is the grammar of HTML.
#[verifier::external_body]
fn html() -> (language: Language)
    ensures
        language_id(language) == LangId::Html,
{
    tree_sitter_html::LANGUAGE.into()
}

/// `tree_sitter_css::LANGUAGE` is the grammar of CSS.
#[verifier::external_body]
fn css() -> (language: Language)
    ensures
        language_id(language) == LangId::Css,
{
    tree_sitter_css::LANGUAGE.into()
}

/// `tree_sitter::Query::new` compiles the patterns for a grammar. Whether it
/// fails, and with what message, depends on the grammar and the text alone.
/// It is called on the queries of this library only: on some other texts, such
/// as one that starts with the name of an unknown field, it panics.
#[verifier::external_body]
pub(crate) fn compile_query(language: &Language, text: &str) -> (query: Result<Query, String>)
    requires
        grammar::known_query(language_id(*language), text@),
    ensures
        match query {
            Ok(q) => query_fault(language_id(*language), text@) is None && query_model(q) == (
            QueryModel { language: language_id(*language), text: text@ }),
            Err(message) => query_fault(language_id(*language), text@) == Some(message@),
        },
{
    Query::new(language, text).map_err(|e| e.to_string())
}

/// Whether the parser returns on the text. The scanner of the Kotlin grammar
/// passes over what follows an at sign up to white space or the end of the line
/// without looking for the end of the text, so on a last line with an at sign
/// it may go on forever.
pub open spec fn parser_returns(language: LangId, text: Seq<char>) -> bool {
    language == LangId::Kotlin ==> !text::after_last(text, '\n').contains('@')
}

/// `tree_sitter::Parser::parse` on a new parser with the grammar and no earlier
/// tree. Whether there is a tree, and what nodes it has, depends on the grammar
/// and the text alone.
#[verifier::external_body]
pub(crate) fn parse_text(language: &Language, text: &str) -> (tree: Option<Tree>)
    requires
        parser_returns(language_id(*language), text@),
    ensures
        match tree {
            Some(t) => parse_outcome(language_id(*language), text@) == Some(tree_model(t).nodes)
                && tree_model(t).language == language_id(*language) && tree_model(t).text == text@,
            None => parse_outcome(language_id(*language), text@) is None,
        },
{
    let mut parser = tree_sitter::Parser::new();
    parser.set_language(language).ok();
    parser.parse(text, None)
}

/// Whether the bytes of the text can be counted with 32 bits, as tree-sitter
/// counts them.
pub open spec fn small(text: Seq<char>) -> bool {
    vstd::utf8::encode_utf8(text).len() < u32::MAX
}

/// `tree_sitter::Tree::walk` starts at the root. The nodes, in the order of a
/// depth-first walk, have the depths of a tree with that root, and no two of
/// them have the same number. In a text whose bytes can be counted with 32 bits,
/// no node ends before it starts or after the last line, and every node lies
/// within its parent.
#[verifier::external_body]
fn walk<'a>(tree: &'a Tree) -> (cursor: TreeCursor<'a>)
    ensures
        cursor_model(cursor) == tree_model(*tree),
        cursor_place(cursor) == 0,
        tree::is_tree(cursor_model(cursor).nodes),
        cursor_model(cursor).ids.len() == cursor_model(cursor).nodes.len(),
        cursor_model(cursor).ids.no_duplicates(),
        small(cursor_model(cursor).text) ==> tree::rows_nested(
            cursor_model(cursor).nodes,
            text::occurrences(cursor_model(cursor).text, '\n'),
        ),
{
    tree.walk()
}

/// `TreeCursor::goto_first_child` moves to the first child, if there is one,
/// and says whether it moved.
pub assume_specification<'cursor>[ TreeCursor::<'cursor>::goto_first_child ](
    cursor: &mut TreeCursor<'cursor>,
) -> (moved: bool)
    ensures
        cursor_model(*final(cursor)) == cursor_model(*old(cursor)),
        match tree::first_child_of(cursor_model(*old(cursor)).nodes, cursor_place(*old(cursor))) {
            Some(child) => moved && cursor_place(*final(cursor)) == child,
            None => !moved && cursor_place(*final(cursor)) == cursor_place(*old(cursor)),
        },
;

/// `TreeCursor::goto_next_sibling` moves to the next sibling, if there is one,
/// and says whether it moved.
pub assume_specification<'cursor>[ TreeCursor::<'cursor>::goto_next_sibling ](
    cursor: &mut TreeCursor<'cursor>,
) -> (moved: bool)
    ensures
        cursor_model(*final(cursor)) == cursor_model(*old(cursor)),
        match tree::next_sibling_of(cursor_model(*old(cursor)).nodes, cursor_place(*old(cursor))) {
            Some(sibling) => moved && cursor_place(*final(cursor)) == sibling,
            None => !moved && cursor_place(*final(cursor)) == cursor_place(*old(cursor)),
        },
;

/// `TreeCursor::goto_parent` moves to the parent, if there is one, and says
/// whether it moved.
pub assume_specification<'cursor>[ TreeCursor::<'cursor>::goto_parent ](
    cursor: &mut TreeCursor<'cursor>,
) -> (moved: bool)
    ensures
        cursor_model(*final(cursor)) == cursor_model(*old(cursor)),
        match tree::parent_of(cursor_model(*old(cursor)).nodes, cursor_place(*old(cursor))) {
            Some(parent) => moved && cursor_place(*final(cursor)) == parent,
            None => !moved && cursor_place(*final(cursor)) == cursor_place(*old(cursor)),
        },
;

/// The node that the cursor is at, as `TreeCursor::node` and `TreeCursor::depth`
/// show it: its kind, whether it is named, the bytes and rows of its start and
/// end, and how many ancestors it has. Rows count the line ends of a text in
/// memory, so the row after any of them can be counted too.
#[verifier::external_body]
fn current_node<'a>(cursor: &TreeCursor<'a>) -> (node: SyntaxNode)
    ensures
        node@ == cursor_model(*cursor).nodes[cursor_place(*cursor)],
        node.start_row < usize::MAX,
        node.end_row < usize::MAX,
{
    let node = cursor.node();
    SyntaxNode {
        kind: node.kind(),
        named: node.is_named(),
        start_byte: node.start_byte(),
        end_byte: node.end_byte(),
        start_row: node.start_position().row,
        end_row: node.end_position().row,
        depth: cursor.depth() as usize,
    }
}

/// `tree_sitter::Node::id` of the node that the cursor is at.
#[verifier::external_body]
fn current_id<'a>(cursor: &TreeCursor<'a>) -> (id: usize)
    ensures
        id == cursor_model(*cursor).ids[cursor_place(*cursor)],
{
    cursor.node().id()
}

/// Whether `found` lists the matches `matches`, with the number of each node
/// in place of its place.
pub open spec fn numbered(
    found: Seq<Vec<(String, usize)>>,
    matches: Seq<Seq<CaptureView>>,
    ids: Seq<usize>,
) -> bool {
    &&& found.len() == matches.len()
    &&& forall|i: int| 0 <= i < found.len() ==> numbered_match((#[trigger] found[i])@, matches[i], ids)
}

pub open spec fn numbered_match(
    found: Seq<(String, usize)>,
    captures: Seq<CaptureView>,
    ids: Seq<usize>,
) -> bool {
    &&& found.len() == captures.len()
    &&& forall|i: int|
        0 <= i < found.len() ==> (#[trigger] found[i]).0@ == captures[i].name && 0
            <= captures[i].node < ids.len() && found[i].1 == ids[captures[i].node]
}

/// Whether each of the matches that `found` lists names a function.
pub open spec fn each_names_function(
    found: Seq<Vec<(String, usize)>>,
    matches: Seq<Seq<CaptureView>>,
    nodes: Seq<NodeShape>,
) -> bool {
    forall|i: int| #![trigger found[i]]
        0 <= i < found.len() ==> functions::names_function(matches[i], nodes)
}

/// `tree_sitter::QueryCursor::matches` over the whole tree: each match with the
/// names of its captures and the numbers of the captured nodes. What they are
/// depends on the grammar, the query and the text alone. The patterns of the
/// queries for functions capture a function as a whole and one of its children
/// as its name, so their matches do.
#[verifier::external_body]
fn run_query(query: &Query, tree: &Tree, source: &[u8]) -> (found: Vec<Vec<(String, usize)>>)
    requires
        query_model(*query).language == tree_model(*tree).language,
        source@ == vstd::utf8::encode_utf8(tree_model(*tree).text),
    ensures
        numbered(
            found@,
            query_matches(
                tree_model(*tree).language,
                query_model(*query).text,
                tree_model(*tree).text,
            ),
            tree_model(*tree).ids,
        ),
        grammar::function_query(tree_model(*tree).language, query_model(*query).text)
            ==> each_names_function(
            found@,
            query_matches(
                tree_model(*tree).language,
                query_model(*query).text,
                tree_model(*tree).text,
            ),
            tree_model(*tree).nodes,
        ),
{
    let mut cursor = tree_sitter::QueryCursor::new();
    let matches = cursor.matches(query, tree.root_node(), source);
    let names = query.capture_names();
    streaming_iterator::StreamingIterator::map_deref(
        matches,
        |m| m.captures.iter().map(|c| (names[c.index as usize].to_string(), c.node.id())).collect(),
    ).collect()
}

/// The grammar of the language; Vue components have none of their own.
pub(crate) fn grammar_language(id: LangId) -> (language: Option<Language>)
    ensures
        match language {
            Some(l) => language_id(l) == id,
            None => id == LangId::Vue,
        },
{
    match id {
        LangId::TypeScript => Some(typescript()),
        LangId::Tsx => Some(tsx()),
        LangId::JavaScript => Some(javascript()),
        LangId::Go => Some(go()),
        LangId::Kotlin => Some(kotlin()),
        LangId::Rust => Some(rust()),
        LangId::Vue => None,
        LangId::Html => Some(html()),
        LangId::Css => Some(css()),
    }
}

/// `next_within` is the place before which all nodes are deeper.
proof fn lemma_next_within_is(nodes: Seq<NodeShape>, i: int, end: int, depth: int)
    requires
        i <= end <= nodes.len(),
        forall|k: int| i <= k < end ==> nodes[k].depth > depth,
        end < nodes.len() ==> nodes[end].depth <= depth,
    ensures
        tree::next_within(nodes, i, depth) == end,
    decreases end - i,
{
    if i < end {
        lemma_next_within_is(nodes, i + 1, end, depth);
    }
}

/// The nodes below a parent end where those below its last child end.
proof fn lemma_climb(nodes: Seq<NodeShape>, i: int, end: int)
    requires
        tree::is_tree(nodes),
        0 < i < nodes.len(),
        tree::next_within(nodes, i + 1, nodes[i].depth as int) == end,
        tree::next_sibling_of(nodes, i) is None,
    ensures
        tree::parent_of(nodes, i) matches Some(p) && 0 <= p < i && tree::next_within(
            nodes,
            p + 1,
            nodes[p].depth as int,
        ) == end,
{
    tree::lemma_parent(nodes, i);
    tree::lemma_last_within(nodes, i, nodes[i].depth - 1);
    tree::lemma_next_within(nodes, i + 1, nodes[i].depth as int);
    let p = tree::parent_of(nodes, i)->0;
    assert forall|k: int| p + 1 <= k < end implies nodes[k].depth > nodes[p].depth by {
        if k > i {
            assert(nodes[k].depth > nodes[i].depth);
        }
    }
    lemma_next_within_is(nodes, p + 1, end, nodes[p].depth as int);
}

/// The tree as plain values, with the numbers of its nodes.
pub(crate) fn read_tree(tree: &Tree) -> (read: (SyntaxTree, Vec<usize>))
    ensures
        read.0@ == tree_model(*tree).nodes,
        read.1@ == tree_model(*tree).ids,
        read.1@.len() == read.0@.len(),
        read.1@.no_duplicates(),
        functions::lines_fit(read.0@),
        small(tree_model(*tree).text) ==> tree::rows_nested(
            read.0@,
            text::occurrences(tree_model(*tree).text, '\n'),
        ),
{
    let ghost model = tree_model(*tree);
    let mut cursor = walk(tree);
    let mut nodes: Vec<SyntaxNode> = Vec::new();
    let mut ids: Vec<usize> = Vec::new();
    let mut more = true;
    while more
        invariant
            cursor_model(cursor) == model,
            tree::is_tree(model.nodes),
            model.ids.len() == model.nodes.len(),
            nodes@.len() == ids@.len() <= model.nodes.len(),
            more ==> cursor_place(cursor) == nodes@.len() < model.nodes.len(),
            !more ==> nodes@.len() == model.nodes.len(),
            tree::shapes(nodes@) == model.nodes.take(nodes@.len() as int),
            ids@ == model.ids.take(ids@.len() as int),
            functions::lines_fit(tree::shapes(nodes@)),
        decreases model.nodes.len() - nodes@.len(),
    {
        let ghost at = cursor_place(cursor);
        let ghost seen = nodes@;
        let node = current_node(&cursor);
        nodes.push(node);
        ids.push(current_id(&cursor));
        proof {
            assert(tree::shapes(nodes@) =~= tree::shapes(seen).push(node@));
            assert(tree::shapes(nodes@) =~= model.nodes.take(at + 1));
            assert(ids@ =~= model.ids.take(at + 1));
            assert forall|i: int| 0 <= i < tree::shapes(nodes@).len() implies (
            #[trigger] tree::shapes(nodes@)[i]).start_row < usize::MAX && tree::shapes(
                nodes@,
            )[i].end_row < usize::MAX by {
                if i < at {
                    assert(tree::shapes(nodes@)[i] == tree::shapes(seen)[i]);
                }
            }
        }
        if !cursor.goto_first_child() {
            proof {
                lemma_next_within_is(model.nodes, at + 1, at + 1, model.nodes[at].depth as int);
            }
            let mut climbing = true;
            while climbing
                invariant
                    cursor_model(cursor) == model,
                    tree::is_tree(model.nodes),
                    0 < nodes@.len() <= model.nodes.len(),
                    climbing ==> {
                        &&& more
                        &&& 0 <= cursor_place(cursor) < nodes@.len()
                        &&& tree::next_within(
                            model.nodes,
                            cursor_place(cursor) + 1,
                            model.nodes[cursor_place(cursor)].depth as int,
                        ) == nodes@.len()
                    },
                    !climbing && more ==> cursor_place(cursor) == nodes@.len() < model.nodes.len(),
                    !climbing && !more ==> nodes@.len() == model.nodes.len(),
                decreases
                    if climbing {
                        cursor_place(cursor) + 1
                    } else {
                        0
                    },
            {
                let ghost place = cursor_place(cursor);
                if cursor.goto_next_sibling() {
                    climbing = false;
                } else {
                    proof {
                        if place > 0 {
                            lemma_climb(model.nodes, place, nodes@.len() as int);
                        } else if nodes@.len() < model.nodes.len() {
                            assert(tree::follows(model.nodes, nodes@.len() as int));
                            tree::lemma_next_within(model.nodes, 1, 0);
                        }
                    }
                    if !cursor.goto_parent() {
                        climbing = false;
                        more = false;
                    }
                }
            }
        }
    }
    proof {
        assert(model.nodes.take(nodes@.len() as int) =~= model.nodes);
        assert(model.ids.take(ids@.len() as int) =~= model.ids);
    }
    (SyntaxTree::new(nodes).unwrap(), ids)
}

/// The place of each number in `ids`.
fn index_ids(ids: &Vec<usize>) -> (places: HashMap<usize, usize>)
    requires
        ids@.no_duplicates(),
    ensures
        forall|i: int|
            0 <= i < ids@.len() ==> places@.contains_key(#[trigger] ids@[i]) && places@[ids@[i]]
                == i,
{
    broadcast use vstd::std_specs::hash::group_hash_axioms;

    let mut places: HashMap<usize, usize> = HashMap::new();
    let mut i: usize = 0;
    while i < ids.len()
        invariant
            i <= ids@.len(),
            ids@.no_duplicates(),
            forall|j: int|
                0 <= j < i ==> places@.contains_key(#[trigger] ids@[j]) && places@[ids@[j]] == j,
        decreases ids@.len() - i,
    {
        places.insert(ids[i], i);
        i += 1;
    }
    places
}

/// The matches of the query in the tree. `ids` are the numbers of the nodes of
/// the tree, in the order of a depth-first walk.
pub(crate) fn find_matches(query: &Query, tree: &Tree, ids: &Vec<usize>, source: &[u8]) -> (matches:
    Vec<QueryMatch>)
    requires
        query_model(*query).language == tree_model(*tree).language,
        source@ == vstd::utf8::encode_utf8(tree_model(*tree).text),
        ids@ == tree_model(*tree).ids,
        ids@.no_duplicates(),
    ensures
        query::match_views(matches@) == query_matches(
            tree_model(*tree).language,
            query_model(*query).text,
            tree_model(*tree).text,
        ),
        query::matches_within(query::match_views(matches@), ids@.len()),
        grammar::function_query(tree_model(*tree).language, query_model(*query).text)
            ==> functions::all_name_functions(
            query::match_views(matches@),
            tree_model(*tree).nodes,
        ),
{
    broadcast use vstd::std_specs::hash::group_hash_axioms;

    let ghost wanted = query_matches(
        tree_model(*tree).language,
        query_model(*query).text,
        tree_model(*tree).text,
    );
    let places = index_ids(ids);
    let found = run_query(query, tree, source);
    proof {
        if grammar::function_query(tree_model(*tree).language, query_model(*query).text) {
            assert forall|i: int| 0 <= i < wanted.len() implies functions::names_function(
                #[trigger] wanted[i],
                tree_model(*tree).nodes,
            ) by {
                assert(found@[i]@.len() >= 0);
            }
        }
    }
    let mut matches: Vec<QueryMatch> = Vec::new();
    let mut i: usize = 0;
    while i < found.len()
        invariant
            i <= found@.len(),
            numbered(found@, wanted, ids@),
            forall|k: int|
                0 <= k < ids@.len() ==> places@.contains_key(#[trigger] ids@[k])
                    && places@[ids@[k]] == k,
            query::match_views(matches@) == wanted.take(i as int),
            query::matches_within(query::match_views(matches@), ids@.len()),
        decreases found@.len() - i,
    {
        let row = &found[i];
        assert(numbered_match(row@, wanted[i as int], ids@));
        let mut captures: Vec<Capture> = Vec::new();
        let mut j: usize = 0;
        while j < row.len()
            invariant
                i < wanted.len(),
                j <= row@.len(),
                numbered_match(row@, wanted[i as int], ids@),
                forall|k: int|
                    0 <= k < ids@.len() ==> places@.contains_key(#[trigger] ids@[k])
                        && places@[ids@[k]] == k,
                captures@.len() == j,
                forall|k: int|
                    0 <= k < j ==> (#[trigger] captures@[k])@ == wanted[i as int][k],
            decreases row@.len() - j,
        {
            let (name, id) = &row[j];
            assert(ids@[wanted[i as int][j as int].node] == row@[j as int].1);
            let place = places.get(id).unwrap();
            captures.push(Capture { name: name.clone(), node: *place });
            j += 1;
        }
        let ghost earlier = query::match_views(matches@);
        let found_match = QueryMatch { captures };
        assert(found_match@ =~= wanted[i as int]);
        matches.push(found_match);
        proof {
            assert(query::match_views(matches@) =~= earlier.push(found_match@));
            assert forall|k: int|
                0 <= k < found_match@.len() implies 0 <= (#[trigger] found_match@[k]).node
                < ids@.len() by {
                assert(row@[k].1 == ids@[wanted[i as int][k].node]);
            }
            assert forall|k: int|
                0 <= k < query::match_views(matches@).len() implies query::captures_within(
                #[trigger] query::match_views(matches@)[k],
                ids@.len(),
            ) by {
                if k < i {
                    assert(query::match_views(matches@)[k] == earlier[k]);
                }
            }
        }
        i += 1;
        assert(query::match_views(matches@) =~= wanted.take(i as int));
    }
    assert(wanted.take(i as int) =~= wanted);
    matches
}

} // verus!
