//! What is reported of one source text.
use vstd::prelude::*;

use crate::calls::collect_calls;
use crate::classes::collect_classes;
use crate::functions::collect_functions;
use crate::grammar::{Grammar, GrammarView};
use crate::imports::collect_imports;
use crate::language::LangId;
use crate::query::{MatchSet, MatchSetView};
use crate::report::{ParseResult, ParseResultView};
use crate::tree::{NodeShape, SyntaxTree};
use crate::{calls, classes, engine, functions, grammar, imports, report, text};

verus! {

/// What is reported of a text that was parsed to the tree `nodes`, with the
/// matches of the queries in it.
pub open spec fn tree_result(
    path: Seq<char>,
    nodes: Seq<NodeShape>,
    matches: MatchSetView,
    source: Seq<u8>,
) -> ParseResultView {
    ParseResultView {
        path,
        functions: match matches.functions {
            Some(m) => functions::functions_of(nodes, m, source),
            None => Seq::empty(),
        },
        classes: match matches.classes {
            Some(m) => classes::classes_of(nodes, m, source),
            None => Seq::empty(),
        },
        imports: match matches.imports {
            Some(m) => imports::imports_of(nodes, m, source, matches.calls is Some),
            None => Seq::empty(),
        },
        calls: match matches.calls {
            Some(m) => calls::calls_of(nodes, m, source),
            None => Seq::empty(),
        },
        error: None,
        duration_us: 0,
    }
}

/// What is reported of `source` in the language of the grammar: what the tree
/// shows that the text to parse gives.
pub open spec fn file_result(
    path: Seq<char>,
    source: Seq<char>,
    grammar: GrammarView,
) -> ParseResultView {
    let text = grammar::parsed_text(grammar.language, source);
    match engine::parse_outcome(grammar.language, text) {
        Some(nodes) => tree_result(
            path,
            nodes,
            grammar::grammar_matches(grammar, text),
            vstd::utf8::encode_utf8(text),
        ),
        None => report::bare_result(path, Some("parser returned no tree"@)),
    }
}

/// Reports the functions, classes, imports and calls in a tree, from the
/// matches of the queries in it.
pub fn report_tree(path: &str, tree: &SyntaxTree, matches: &MatchSet, source: &[u8]) -> (result:
    ParseResult)
    requires
        functions::lines_fit(tree@),
        matches@.within(tree@.len()),
    ensures
        result@ == tree_result(path@, tree@, matches@, source@),
{
    let mut result = ParseResult::bare(path, None);
    if let Some(found) = &matches.functions {
        result.functions = collect_functions(tree, found, source);
    }
    if let Some(found) = &matches.classes {
        result.classes = collect_classes(tree, found, source);
    }
    if let Some(found) = &matches.imports {
        result.imports = collect_imports(tree, found, source, matches.calls.is_some());
    }
    if let Some(found) = &matches.calls {
        result.calls = collect_calls(tree, found, source);
    }
    result
}

/// Parses `source` and reports what it holds. How long it took is not known
/// here: see `ParseResult::with_duration`. The lines of the functions are in
/// order and within the text, if its bytes can be counted with 32 bits.
pub fn parse_file(path: &str, source: &str, grammar: &Grammar) -> (result: ParseResult)
    ensures
        result@ == file_result(path@, source@, grammar@),
        ({
            let text = grammar::parsed_text(grammar@.language, source@);
            engine::small(text) ==> functions::lines_in_order(
                result@.functions,
                text::occurrences(text, '\n') + 1,
            )
        }),
{
    let text = grammar.text_to_parse(source);
    match grammar.read(text.as_str()) {
        Some((tree, matches)) => {
            proof {
                if engine::small(text@) {
                    if let Some(found) = matches@.functions {
                        functions::law_lines_are_in_order(
                            tree@,
                            found,
                            vstd::utf8::encode_utf8(text@),
                            text::occurrences(text@, '\n'),
                        );
                    }
                }
            }
            report_tree(path, &tree, &matches, text.as_str().as_bytes())
        },
        None => ParseResult::bare(path, Some("parser returned no tree".to_string())),
    }
}

/// A result is for the file that was asked for, and has an error exactly where
/// the text could not be parsed at all; it then holds nothing else.
pub proof fn law_error_only_without_tree(path: Seq<char>, source: Seq<char>, grammar: GrammarView)
    ensures
        file_result(path, source, grammar).path == path,
        file_result(path, source, grammar).error is Some <==> engine::parse_outcome(
            grammar.language,
            grammar::parsed_text(grammar.language, source),
        ) is None,
        file_result(path, source, grammar).error matches Some(e) ==> file_result(
            path,
            source,
            grammar,
        ) == report::bare_result(path, Some(e)),
{
}

/// HTML and CSS files are parsed, but nothing is reported of what they hold;
/// of Go files no classes are reported.
pub proof fn law_languages_without_queries(path: Seq<char>, source: Seq<char>)
    ensures
        forall|id: LangId|
            (id == LangId::Html || id == LangId::Css) ==> {
                let result = #[trigger] file_result(path, source, grammar::known_grammar(id)->0);
                result == report::bare_result(path, result.error)
            },
        file_result(
            path,
            source,
            grammar::known_grammar(LangId::Go)->0,
        ).classes.len() == 0,
{
}

/// A result holds the functions, classes, imports and calls that the matches for
/// each of them show, and nothing of what no query looks for.
pub proof fn law_result_holds_what_the_matches_show(
    path: Seq<char>,
    nodes: Seq<NodeShape>,
    matches: MatchSetView,
    source: Seq<u8>,
)
    ensures
        ({
            let result = tree_result(path, nodes, matches, source);
            &&& result.path == path
            &&& result.error is None
            &&& result.duration_us == 0
            &&& matches.functions matches Some(m) ==> result.functions == functions::functions_of(
                nodes,
                m,
                source,
            )
            &&& matches.functions is None ==> result.functions.len() == 0
            &&& matches.classes matches Some(m) ==> result.classes == classes::classes_of(
                nodes,
                m,
                source,
            )
            &&& matches.classes is None ==> result.classes.len() == 0
            &&& matches.imports matches Some(m) ==> result.imports == imports::imports_of(
                nodes,
                m,
                source,
                matches.calls is Some,
            )
            &&& matches.imports is None ==> result.imports.len() == 0
            &&& matches.calls matches Some(m) ==> result.calls == calls::calls_of(nodes, m, source)
            &&& matches.calls is None ==> result.calls.len() == 0
        }),
{
}

/// A text that can be parsed is reported by the tree that it gives, with what all
/// queries of the grammar match in it; one that cannot be parsed is reported with
/// an error.
pub proof fn law_text_is_reported_by_its_tree(
    path: Seq<char>,
    source: Seq<char>,
    grammar: GrammarView,
    nodes: Seq<NodeShape>,
)
    ensures
        ({
            let text = grammar::parsed_text(grammar.language, source);
            &&& engine::parse_outcome(grammar.language, text) == Some(nodes) ==> file_result(
                path,
                source,
                grammar,
            ) == tree_result(
                path,
                nodes,
                grammar::grammar_matches(grammar, text),
                vstd::utf8::encode_utf8(text),
            )
            &&& engine::parse_outcome(grammar.language, text) is None ==> file_result(
                path,
                source,
                grammar,
            ).error == Some("parser returned no tree"@)
        }),
{
}

} // verus!
