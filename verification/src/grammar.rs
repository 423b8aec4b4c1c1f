//! The grammars and the queries that find the entities of a language.
use tree_sitter::{Language, Query, Tree};
use vstd::prelude::*;

use crate::engine::{compile_query, find_matches, grammar_language, parse_text, read_tree};
use crate::language::LangId;
use crate::query::{CaptureView, MatchSet, MatchSetView, QueryMatch};
use crate::text::{chars_of, has_text, text_after_last};
use crate::tree::SyntaxTree;
use crate::{engine, functions, query, text, tree};

verus! {

/// The queries of a language, as text; none for what the language has none of.
struct QueryTexts {
    functions: Option<&'static str>,
    classes: Option<&'static str>,
    imports: Option<&'static str>,
    calls: Option<&'static str>,
}

/// A grammar with its queries: the language and the texts of the queries.
#[verifier::ext_equal]
pub struct GrammarView {
    pub language: LangId,
    pub functions: Option<Seq<char>>,
    pub classes: Option<Seq<char>>,
    pub imports: Option<Seq<char>>,
    pub calls: Option<Seq<char>>,
}

/// In TypeScript and TSX.
pub const TYPESCRIPT_FUNCTIONS: &'static str =
    "(function_declaration name: (identifier) @name) @func
             (variable_declarator name: (identifier) @name value: (arrow_function)) @arrow
             (method_definition name: (property_identifier) @name) @method
             (variable_declarator name: (identifier) @name value: (function_expression)) @func_expr";

/// In TypeScript and TSX.
pub const TYPESCRIPT_CLASSES: &'static str =
    "(class_declaration name: (type_identifier) @name) @class";

pub const JAVASCRIPT_FUNCTIONS: &'static str =
    "(function_declaration name: (identifier) @name) @func
             (variable_declarator name: (identifier) @name value: (arrow_function)) @arrow
             (variable_declarator name: (identifier) @name value: (function_expression)) @func_expr
             (method_definition name: (property_identifier) @name) @method";

pub const JAVASCRIPT_CLASSES: &'static str =
    "(class_declaration name: (identifier) @name) @class";

/// In TypeScript, TSX and JavaScript.
pub const SCRIPT_IMPORTS: &'static str = "(import_statement source: (string) @source) @import";

/// In TypeScript, TSX and JavaScript.
pub const SCRIPT_CALLS: &'static str =
    "(call_expression function: (identifier) @callee) @call
             (call_expression function: (member_expression property: (property_identifier) @callee)) @method_call";

pub const KOTLIN_FUNCTIONS: &'static str = "(function_declaration name: (identifier) @name) @func";

pub const KOTLIN_CLASSES: &'static str =
    "(class_declaration name: (identifier) @name) @class
             (object_declaration name: (identifier) @name) @class";

pub const KOTLIN_IMPORTS: &'static str =
    "(import (identifier) @source) @import
             (import (qualified_identifier) @source) @import";

pub const KOTLIN_CALLS: &'static str = "(call_expression (identifier) @callee) @call";

pub const GO_FUNCTIONS: &'static str = "(function_declaration name: (identifier) @name) @func";

pub const GO_IMPORTS: &'static str = "(import_spec (interpreted_string_literal) @source) @import";

pub const GO_CALLS: &'static str = "(call_expression function: (identifier) @callee) @call";

pub const RUST_FUNCTIONS: &'static str = "(function_item name: (identifier) @name) @func";

pub const RUST_CLASSES: &'static str =
    "(struct_item name: (type_identifier) @name) @class
             (enum_item name: (type_identifier) @name) @class
             (trait_item name: (type_identifier) @name) @class";

pub const RUST_IMPORTS: &'static str =
    "(use_declaration argument: (scoped_identifier) @source) @import
             (use_declaration argument: (identifier) @source) @import";

pub const RUST_CALLS: &'static str =
    "(call_expression function: (identifier) @callee) @call
             (call_expression function: (scoped_identifier) @callee) @call
             (call_expression function: (field_expression field: (field_identifier) @callee)) @method_call";

/// The grammar and the queries of each language. Vue components have none of
/// their own: their scripts are in one of the other languages.
pub open spec fn known_grammar(id: LangId) -> Option<GrammarView> {
    match id {
        LangId::TypeScript | LangId::Tsx => Some(
            GrammarView {
                language: id,
                functions: Some(TYPESCRIPT_FUNCTIONS@),
                classes: Some(TYPESCRIPT_CLASSES@),
                imports: Some(SCRIPT_IMPORTS@),
                calls: Some(SCRIPT_CALLS@),
            },
        ),
        LangId::JavaScript => Some(
            GrammarView {
                language: id,
                functions: Some(JAVASCRIPT_FUNCTIONS@),
                classes: Some(JAVASCRIPT_CLASSES@),
                imports: Some(SCRIPT_IMPORTS@),
                calls: Some(SCRIPT_CALLS@),
            },
        ),
        LangId::Kotlin => Some(
            GrammarView {
                language: id,
                functions: Some(KOTLIN_FUNCTIONS@),
                classes: Some(KOTLIN_CLASSES@),
                imports: Some(KOTLIN_IMPORTS@),
                calls: Some(KOTLIN_CALLS@),
            },
        ),
        LangId::Go => Some(
            GrammarView {
                language: id,
                functions: Some(GO_FUNCTIONS@),
                classes: None,
                imports: Some(GO_IMPORTS@),
                calls: Some(GO_CALLS@),
            },
        ),
        LangId::Rust => Some(
            GrammarView {
                language: id,
                functions: Some(RUST_FUNCTIONS@),
                classes: Some(RUST_CLASSES@),
                imports: Some(RUST_IMPORTS@),
                calls: Some(RUST_CALLS@),
            },
        ),
        LangId::Html | LangId::Css => Some(
            GrammarView {
                language: id,
                functions: None,
                classes: None,
                imports: None,
                calls: None,
            },
        ),
        LangId::Vue => None,
    }
}

/// Whether the text is that of one of the queries of the language.
pub open spec fn known_query(id: LangId, text: Seq<char>) -> bool {
    known_grammar(id) matches Some(g) && (g.functions == Some(text) || g.classes == Some(text)
        || g.imports == Some(text) || g.calls == Some(text))
}

/// Whether the text is that of the query for functions of the language.
pub open spec fn function_query(id: LangId, text: Seq<char>) -> bool {
    known_grammar(id) matches Some(g) && g.functions == Some(text)
}

/// The text that is parsed for a source text in the language. Where the last
/// line of a Kotlin text holds an at sign, its end is marked by a line end, which
/// the scanner of the grammar needs to come to an end.
pub open spec fn parsed_text(id: LangId, source: Seq<char>) -> Seq<char> {
    if engine::parser_returns(id, source) {
        source
    } else {
        source.push('\n')
    }
}

/// The languages that have a grammar, in the order in which they are loaded.
pub open spec fn grammar_languages() -> Seq<LangId> {
    seq![
        LangId::TypeScript,
        LangId::Tsx,
        LangId::JavaScript,
        LangId::Kotlin,
        LangId::Go,
        LangId::Rust,
        LangId::Html,
        LangId::Css,
    ]
}

/// The grammars of all languages that have one.
pub open spec fn known_grammars() -> Map<LangId, GrammarView> {
    Map::new(|id: LangId| known_grammar(id) is Some, |id: LangId| known_grammar(id)->0)
}

/// The languages in the order of loading are those that have a grammar.
proof fn lemma_languages()
    ensures
        forall|id: LangId|
            #[trigger] grammar_languages().contains(id) <==> known_grammar(id) is Some,
{
    assert forall|id: LangId| #[trigger] grammar_languages().contains(id)
        <==> known_grammar(id) is Some by {
        let ids = grammar_languages();
        assert(ids[0] == LangId::TypeScript && ids[1] == LangId::Tsx && ids[2]
            == LangId::JavaScript && ids[3] == LangId::Kotlin && ids[4] == LangId::Go && ids[5]
            == LangId::Rust && ids[6] == LangId::Html && ids[7] == LangId::Css);
    }
}

/// What is wrong with the text of a query, if there is a query.
pub open spec fn optional_fault(id: LangId, text: Option<Seq<char>>) -> Option<Seq<char>> {
    match text {
        Some(t) => engine::query_fault(id, t),
        None => None,
    }
}

/// What is wrong with the first faulty query of the grammar.
pub open spec fn grammar_fault(grammar: GrammarView) -> Option<Seq<char>> {
    match (
        optional_fault(grammar.language, grammar.functions),
        optional_fault(grammar.language, grammar.classes),
        optional_fault(grammar.language, grammar.imports),
        optional_fault(grammar.language, grammar.calls),
    ) {
        (Some(fault), _, _, _) => Some(fault),
        (None, Some(fault), _, _) => Some(fault),
        (None, None, Some(fault), _) => Some(fault),
        (None, None, None, fault) => fault,
    }
}

/// The first of the languages with a faulty query, and what is wrong with it.
pub open spec fn first_fault(ids: Seq<LangId>) -> Option<(LangId, Seq<char>)>
    decreases ids.len(),
{
    if ids.len() == 0 {
        None
    } else {
        match known_grammar(ids[0]) {
            Some(grammar) => match grammar_fault(grammar) {
                Some(fault) => Some((ids[0], fault)),
                None => first_fault(ids.drop_first()),
            },
            None => first_fault(ids.drop_first()),
        }
    }
}

/// The text in `text`, if any.
pub open spec fn optional_literal(text: Option<&'static str>) -> Option<Seq<char>> {
    match text {
        Some(s) => Some(s@),
        None => None,
    }
}

/// The text that the query was compiled from, if there is a query.
pub open spec fn query_text(query: Option<Query>) -> Option<Seq<char>> {
    match query {
        Some(q) => Some(engine::query_model(q).text),
        None => None,
    }
}

/// Whether the query, if there is one, was compiled for the language.
pub open spec fn query_for(query: Option<Query>, id: LangId) -> bool {
    query matches Some(q) ==> engine::query_model(q).language == id
}

/// What the queries of the grammar match in the text.
pub open spec fn grammar_matches(grammar: GrammarView, text: Seq<char>) -> MatchSetView {
    MatchSetView {
        functions: matches_of(grammar.language, grammar.functions, text),
        classes: matches_of(grammar.language, grammar.classes, text),
        imports: matches_of(grammar.language, grammar.imports, text),
        calls: matches_of(grammar.language, grammar.calls, text),
    }
}

/// What the query, if there is one, matches in the text.
pub open spec fn matches_of(id: LangId, query: Option<Seq<char>>, text: Seq<char>) -> Option<
    Seq<Seq<CaptureView>>,
> {
    match query {
        Some(q) => Some(engine::query_matches(id, q, text)),
        None => None,
    }
}

/// The queries of a language; none for Vue components.
fn query_texts(id: LangId) -> (texts: Option<QueryTexts>)
    ensures
        match texts {
            Some(t) => known_grammar(id) == Some(
                (GrammarView {
                    language: id,
                    functions: optional_literal(t.functions),
                    classes: optional_literal(t.classes),
                    imports: optional_literal(t.imports),
                    calls: optional_literal(t.calls),
                }),
            ),
            None => known_grammar(id) is None,
        },
{
    match id {
        LangId::TypeScript | LangId::Tsx => Some(
            QueryTexts {
                functions: Some(TYPESCRIPT_FUNCTIONS),
                classes: Some(TYPESCRIPT_CLASSES),
                imports: Some(SCRIPT_IMPORTS),
                calls: Some(SCRIPT_CALLS),
            },
        ),
        LangId::JavaScript => Some(
            QueryTexts {
                functions: Some(JAVASCRIPT_FUNCTIONS),
                classes: Some(JAVASCRIPT_CLASSES),
                imports: Some(SCRIPT_IMPORTS),
                calls: Some(SCRIPT_CALLS),
            },
        ),
        LangId::Kotlin => Some(
            QueryTexts {
                functions: Some(KOTLIN_FUNCTIONS),
                classes: Some(KOTLIN_CLASSES),
                imports: Some(KOTLIN_IMPORTS),
                calls: Some(KOTLIN_CALLS),
            },
        ),
        LangId::Go => Some(
            QueryTexts {
                functions: Some(GO_FUNCTIONS),
                classes: None,
                imports: Some(GO_IMPORTS),
                calls: Some(GO_CALLS),
            },
        ),
        LangId::Rust => Some(
            QueryTexts {
                functions: Some(RUST_FUNCTIONS),
                classes: Some(RUST_CLASSES),
                imports: Some(RUST_IMPORTS),
                calls: Some(RUST_CALLS),
            },
        ),
        LangId::Html | LangId::Css => Some(
            QueryTexts { functions: None, classes: None, imports: None, calls: None },
        ),
        LangId::Vue => None,
    }
}

/// Compiles the query, if there is one.
fn compile_optional(language: &Language, text: Option<&'static str>) -> (query: Result<
    Option<Query>,
    String,
>)
    requires
        text matches Some(t) ==> known_query(engine::language_id(*language), t@),
    ensures
        match query {
            Ok(q) => query_text(q) == optional_literal(text) && query_for(
                q,
                engine::language_id(*language),
            ) && optional_fault(engine::language_id(*language), optional_literal(text)) is None,
            Err(message) => optional_fault(engine::language_id(*language), optional_literal(text))
                == Some(message@),
        },
{
    match text {
        Some(t) => match compile_query(language, t) {
            Ok(query) => Ok(Some(query)),
            Err(message) => Err(message),
        },
        None => Ok(None),
    }
}

/// The compiled queries of a language.
struct QuerySet {
    functions: Option<Query>,
    classes: Option<Query>,
    imports: Option<Query>,
    calls: Option<Query>,
}

/// A grammar with its compiled queries.
pub struct Grammar {
    id: LangId,
    lang: Language,
    queries: QuerySet,
}

impl View for Grammar {
    type V = GrammarView;

    closed spec fn view(&self) -> GrammarView {
        GrammarView {
            language: engine::language_id(self.lang),
            functions: query_text(self.queries.functions),
            classes: query_text(self.queries.classes),
            imports: query_text(self.queries.imports),
            calls: query_text(self.queries.calls),
        }
    }
}

/// Why a grammar could not be loaded: what is wrong with one of its queries.
#[derive(Debug, PartialEq, Eq)]
pub struct GrammarError {
    pub language: LangId,
    pub message: String,
}

impl Grammar {
    /// The queries are those of the language of the grammar.
    #[verifier::type_invariant]
    spec fn well_formed(self) -> bool {
        let id = engine::language_id(self.lang);
        &&& self.id == id
        &&& known_grammar(id) == Some(self@)
        &&& query_for(self.queries.functions, id)
        &&& query_for(self.queries.classes, id)
        &&& query_for(self.queries.imports, id)
        &&& query_for(self.queries.calls, id)
    }

    /// Loads the grammar of a language and compiles its queries. There is none
    /// for Vue components.
    pub fn load(id: LangId) -> (grammar: Result<Option<Grammar>, GrammarError>)
        ensures
            match grammar {
                Ok(Some(g)) => known_grammar(id) == Some(g@) && grammar_fault(g@) is None,
                Ok(None) => known_grammar(id) is None,
                Err(error) => known_grammar(id) matches Some(g) && grammar_fault(g) == Some(
                    error.message@,
                ) && error.language == id,
            },
    {
        let (lang, texts) = match (grammar_language(id), query_texts(id)) {
            (Some(lang), Some(texts)) => (lang, texts),
            _ => return Ok(None),
        };
        let functions = match compile_optional(&lang, texts.functions) {
            Ok(query) => query,
            Err(message) => return Err(GrammarError { language: id, message }),
        };
        let classes = match compile_optional(&lang, texts.classes) {
            Ok(query) => query,
            Err(message) => return Err(GrammarError { language: id, message }),
        };
        let imports = match compile_optional(&lang, texts.imports) {
            Ok(query) => query,
            Err(message) => return Err(GrammarError { language: id, message }),
        };
        let calls = match compile_optional(&lang, texts.calls) {
            Ok(query) => query,
            Err(message) => return Err(GrammarError { language: id, message }),
        };
        Ok(Some(Grammar { id, lang, queries: QuerySet { functions, classes, imports, calls } }))
    }

    /// The text that is parsed for a source text.
    pub(crate) fn text_to_parse(&self, source: &str) -> (text: String)
        ensures
            text@ == parsed_text(self@.language, source@),
            engine::parser_returns(self@.language, text@),
    {
        proof {
            use_type_invariant(self);
            text::lemma_contains_mark(text::after_last(source@, '\n'), '@');
        }
        let mut text = source.to_string();
        if self.id == LangId::Kotlin {
            let chars = chars_of(source);
            let mark: [char; 1] = ['@'];
            assert(mark@ =~= seq!['@']);
            if has_text(text_after_last(chars.as_slice(), '\n'), &mark) {
                text.push('\n');
            }
        }
        text
    }

    /// Parses the text and runs the queries on it.
    pub(crate) fn read(&self, source: &str) -> (read: Option<(SyntaxTree, MatchSet)>)
        requires
            engine::parser_returns(self@.language, source@),
        ensures
            match read {
                Some((tree, matches)) => engine::parse_outcome(self@.language, source@) == Some(
                    tree@,
                ) && matches@ == grammar_matches(self@, source@) && functions::lines_fit(tree@)
                    && matches@.within(tree@.len()) && (engine::small(source@)
                    ==> tree::rows_nested(tree@, text::occurrences(source@, '\n'))) && (
                matches@.functions matches Some(m) ==> functions::all_name_functions(m, tree@)),
                None => engine::parse_outcome(self@.language, source@) is None,
            },
    {
        proof {
            use_type_invariant(self);
        }
        let tree = match parse_text(&self.lang, source) {
            Some(tree) => tree,
            None => return None,
        };
        let bytes = source.as_bytes();
        let (plain, ids) = read_tree(&tree);
        let matches = MatchSet {
            functions: find_optional(&self.queries.functions, &tree, &ids, bytes),
            classes: find_optional(&self.queries.classes, &tree, &ids, bytes),
            imports: find_optional(&self.queries.imports, &tree, &ids, bytes),
            calls: find_optional(&self.queries.calls, &tree, &ids, bytes),
        };
        Some((plain, matches))
    }
}

/// The matches of the query in the tree, if there is a query.
fn find_optional(query: &Option<Query>, tree: &Tree, ids: &Vec<usize>, source: &[u8]) -> (matches:
    Option<Vec<QueryMatch>>)
    requires
        query_for(*query, engine::tree_model(*tree).language),
        source@ == vstd::utf8::encode_utf8(engine::tree_model(*tree).text),
        ids@ == engine::tree_model(*tree).ids,
        ids@.no_duplicates(),
    ensures
        query::optional_matches(matches) == matches_of(
            engine::tree_model(*tree).language,
            query_text(*query),
            engine::tree_model(*tree).text,
        ),
        query::optional_within(query::optional_matches(matches), ids@.len()),
        query matches Some(q) && function_query(
            engine::tree_model(*tree).language,
            engine::query_model(*q).text,
        ) ==> functions::all_name_functions(
            query::optional_matches(matches)->0,
            engine::tree_model(*tree).nodes,
        ),
{
    match query {
        Some(q) => Some(find_matches(q, tree, ids, source)),
        None => None,
    }
}

/// The grammar of `id` among `entries`.
spec fn entry_of(entries: Seq<(LangId, Grammar)>, id: LangId) -> Option<GrammarView>
    decreases entries.len(),
{
    if entries.len() == 0 {
        None
    } else if entries.last().0 == id {
        Some(entries.last().1@)
    } else {
        entry_of(entries.drop_last(), id)
    }
}

/// A language without a grammar among `entries` has no entry.
proof fn lemma_no_entry(entries: Seq<(LangId, Grammar)>, id: LangId)
    requires
        entry_of(entries, id) is None,
    ensures
        forall|i: int| 0 <= i < entries.len() ==> (#[trigger] entries[i]).0 != id,
    decreases entries.len(),
{
    if entries.len() > 0 {
        lemma_no_entry(entries.drop_last(), id);
        assert forall|i: int| 0 <= i < entries.len() implies (#[trigger] entries[i]).0 != id by {
            if i < entries.len() - 1 {
                assert(entries.drop_last()[i] == entries[i]);
            }
        }
    }
}

/// The loaded grammars.
pub struct Grammars {
    entries: Vec<(LangId, Grammar)>,
}

impl View for Grammars {
    type V = Map<LangId, GrammarView>;

    closed spec fn view(&self) -> Map<LangId, GrammarView> {
        Map::new(
            |id: LangId| entry_of(self.entries@, id) is Some,
            |id: LangId| entry_of(self.entries@, id)->0,
        )
    }
}

impl Grammars {
    /// No language has two entries.
    #[verifier::type_invariant]
    spec fn well_formed(self) -> bool {
        forall|i: int, j: int|
            0 <= i < j < self.entries@.len() ==> (#[trigger] self.entries@[i]).0 != (
            #[trigger] self.entries@[j]).0
    }

    /// The grammar of the language, if it is loaded.
    pub fn get(&self, id: LangId) -> (grammar: Option<&Grammar>)
        ensures
            match grammar {
                Some(g) => self@.contains_key(id) && self@[id] == g@,
                None => !self@.contains_key(id),
            },
    {
        let mut i: usize = self.entries.len();
        assert(self.entries@.take(i as int) =~= self.entries@);
        while i > 0
            invariant
                i <= self.entries@.len(),
                entry_of(self.entries@, id) == entry_of(self.entries@.take(i as int), id),
            decreases i,
        {
            let ghost seen = self.entries@.take(i as int);
            assert(seen.drop_last() =~= self.entries@.take(i - 1));
            i -= 1;
            assert(seen.last() == self.entries@[i as int]);
            if self.entries[i].0 == id {
                return Some(&self.entries[i].1);
            }
        }
        None
    }

    /// Loads the grammars of the languages, in order, up to the first that has
    /// a faulty query. Languages without a grammar are passed over.
    pub fn load(ids: &[LangId]) -> (grammars: Result<Grammars, GrammarError>)
        ensures
            match grammars {
                Ok(g) => first_fault(ids@) is None && forall|id: LangId|
                    {
                        &&& #[trigger] g@.contains_key(id) <==> ids@.contains(id) && known_grammar(
                            id,
                        ) is Some
                        &&& g@.contains_key(id) ==> known_grammar(id) == Some(g@[id])
                    },
                Err(error) => first_fault(ids@) == Some((error.language, error.message@)),
            },
    {
        let mut grammars = Grammars { entries: Vec::new() };
        let mut i: usize = 0;
        assert(ids@.skip(0) =~= ids@);
        while i < ids.len()
            invariant
                i <= ids@.len(),
                first_fault(ids@) == first_fault(ids@.skip(i as int)),
                forall|id: LangId|
                    {
                        &&& #[trigger] grammars@.contains_key(id) <==> ids@.take(i as int).contains(
                            id,
                        ) && known_grammar(id) is Some
                        &&& grammars@.contains_key(id) ==> known_grammar(id) == Some(grammars@[id])
                    },
            decreases ids@.len() - i,
        {
            let id = ids[i];
            let ghost rest = ids@.skip(i as int);
            assert(rest[0] == id);
            assert(rest.drop_first() =~= ids@.skip(i + 1));
            match Grammar::load(id) {
                Ok(Some(grammar)) => {
                    if grammars.get(id).is_none() {
                        grammars = grammars.with(id, grammar);
                    }
                },
                Ok(None) => {},
                Err(error) => return Err(error),
            }
            proof {
                assert(ids@.take(i + 1) =~= ids@.take(i as int).push(id));
                assert forall|other: LangId|
                    ids@.take(i + 1).contains(other) == (ids@.take(i as int).contains(other)
                        || other == id) by {
                    if ids@.take(i as int).contains(other) {
                        let k = choose|k: int|
                            0 <= k < i && ids@.take(i as int)[k] == other;
                        assert(ids@.take(i + 1)[k] == other);
                    }
                    if other == id {
                        assert(ids@.take(i + 1)[i as int] == other);
                    }
                }
            }
            i += 1;
        }
        assert(ids@.take(i as int) =~= ids@);
        Ok(grammars)
    }

    /// The grammars with that of one more language.
    fn with(self, id: LangId, grammar: Grammar) -> (grammars: Grammars)
        requires
            !self@.contains_key(id),
        ensures
            grammars@ == self@.insert(id, grammar@),
    {
        proof {
            use_type_invariant(&self);
            lemma_no_entry(self.entries@, id);
        }
        let ghost before = self.entries@;
        let mut entries = self.entries;
        entries.push((id, grammar));
        assert(entries@.drop_last() =~= before);
        let grammars = Grammars { entries };
        assert(grammars@ =~= self@.insert(id, grammar@));
        grammars
    }
}

/// Loads all grammars and compiles their queries.
pub fn init_grammars() -> (grammars: Result<Grammars, GrammarError>)
    ensures
        match grammars {
            Ok(g) => first_fault(grammar_languages()) is None && g@ == known_grammars(),
            Err(error) => first_fault(grammar_languages()) == Some(
                (error.language, error.message@),
            ),
        },
{
    let ids = [
        LangId::TypeScript,
        LangId::Tsx,
        LangId::JavaScript,
        LangId::Kotlin,
        LangId::Go,
        LangId::Rust,
        LangId::Html,
        LangId::Css,
    ];
    assert(ids@ =~= grammar_languages());
    match Grammars::load(ids.as_slice()) {
        Ok(grammars) => {
            proof {
                lemma_languages();
            }
            assert(grammars@ =~= known_grammars());
            Ok(grammars)
        },
        Err(error) => Err(error),
    }
}

/// The languages of which functions, classes, imports and calls are reported have
/// a query for each: TypeScript, TSX, JavaScript, Kotlin and Rust for all four,
/// Go for all but classes. HTML and CSS have a grammar alone, and Vue components
/// have none.
pub proof fn law_languages_have_their_queries(id: LangId)
    ensures
        known_grammar(id) is None <==> id == LangId::Vue,
        known_grammar(id) matches Some(g) ==> {
            let all = id == LangId::TypeScript || id == LangId::Tsx || id == LangId::JavaScript
                || id == LangId::Kotlin || id == LangId::Rust;
            &&& g.language == id
            &&& g.functions is Some <==> all || id == LangId::Go
            &&& g.classes is Some <==> all
            &&& g.imports is Some <==> all || id == LangId::Go
            &&& g.calls is Some <==> all || id == LangId::Go
        },
{
}

/// TSX has the queries of TypeScript, and the three script languages find imports
/// and calls alike.
pub proof fn law_script_languages_share_queries()
    ensures
        ({
            let typescript = known_grammar(LangId::TypeScript)->0;
            let tsx = known_grammar(LangId::Tsx)->0;
            let javascript = known_grammar(LangId::JavaScript)->0;
            &&& tsx == GrammarView { language: LangId::Tsx, ..typescript }
            &&& javascript.imports == typescript.imports
            &&& javascript.calls == typescript.calls
        }),
{
}

/// What the queries of the languages look for.
pub proof fn law_patterns_of_queries()
    ensures
        (known_grammar(LangId::TypeScript)->0).functions == Some(
            "(function_declaration name: (identifier) @name) @func
             (variable_declarator name: (identifier) @name value: (arrow_function)) @arrow
             (method_definition name: (property_identifier) @name) @method
             (variable_declarator name: (identifier) @name value: (function_expression)) @func_expr"@,
        ),
        (known_grammar(LangId::TypeScript)->0).classes == Some(
            "(class_declaration name: (type_identifier) @name) @class"@,
        ),
        (known_grammar(LangId::TypeScript)->0).imports == Some(
            "(import_statement source: (string) @source) @import"@,
        ),
        (known_grammar(LangId::TypeScript)->0).calls == Some(
            "(call_expression function: (identifier) @callee) @call
             (call_expression function: (member_expression property: (property_identifier) @callee)) @method_call"@,
        ),
        (known_grammar(LangId::JavaScript)->0).functions == Some(
            "(function_declaration name: (identifier) @name) @func
             (variable_declarator name: (identifier) @name value: (arrow_function)) @arrow
             (variable_declarator name: (identifier) @name value: (function_expression)) @func_expr
             (method_definition name: (property_identifier) @name) @method"@,
        ),
        (known_grammar(LangId::JavaScript)->0).classes == Some(
            "(class_declaration name: (identifier) @name) @class"@,
        ),
        (known_grammar(LangId::JavaScript)->0).imports == Some(
            "(import_statement source: (string) @source) @import"@,
        ),
        (known_grammar(LangId::JavaScript)->0).calls == Some(
            "(call_expression function: (identifier) @callee) @call
             (call_expression function: (member_expression property: (property_identifier) @callee)) @method_call"@,
        ),
        (known_grammar(LangId::Kotlin)->0).functions == Some(
            "(function_declaration name: (identifier) @name) @func"@,
        ),
        (known_grammar(LangId::Kotlin)->0).classes == Some(
            "(class_declaration name: (identifier) @name) @class
             (object_declaration name: (identifier) @name) @class"@,
        ),
        (known_grammar(LangId::Kotlin)->0).imports == Some(
            "(import (identifier) @source) @import
             (import (qualified_identifier) @source) @import"@,
        ),
        (known_grammar(LangId::Kotlin)->0).calls == Some(
            "(call_expression (identifier) @callee) @call"@,
        ),
        (known_grammar(LangId::Go)->0).functions == Some(
            "(function_declaration name: (identifier) @name) @func"@,
        ),
        (known_grammar(LangId::Go)->0).imports == Some(
            "(import_spec (interpreted_string_literal) @source) @import"@,
        ),
        (known_grammar(LangId::Go)->0).calls == Some(
            "(call_expression function: (identifier) @callee) @call"@,
        ),
        (known_grammar(LangId::Rust)->0).functions == Some(
            "(function_item name: (identifier) @name) @func"@,
        ),
        (known_grammar(LangId::Rust)->0).classes == Some(
            "(struct_item name: (type_identifier) @name) @class
             (enum_item name: (type_identifier) @name) @class
             (trait_item name: (type_identifier) @name) @class"@,
        ),
        (known_grammar(LangId::Rust)->0).imports == Some(
            "(use_declaration argument: (scoped_identifier) @source) @import
             (use_declaration argument: (identifier) @source) @import"@,
        ),
        (known_grammar(LangId::Rust)->0).calls == Some(
            "(call_expression function: (identifier) @callee) @call
             (call_expression function: (scoped_identifier) @callee) @call
             (call_expression function: (field_expression field: (field_identifier) @callee)) @method_call"@,
        ),
{
}

/// The grammars that are loaded at the start are those of all languages that have
/// one, each of them once: first those of scripts, last those of markup.
pub proof fn law_all_grammars_are_loaded(id: LangId)
    ensures
        grammar_languages().take(3) == seq![LangId::TypeScript, LangId::Tsx, LangId::JavaScript],
        grammar_languages().skip(3) == seq![
            LangId::Kotlin,
            LangId::Go,
            LangId::Rust,
            LangId::Html,
            LangId::Css,
        ],
        grammar_languages().contains(id) <==> id != LangId::Vue,
        grammar_languages().no_duplicates(),
        known_grammars().contains_key(id) <==> id != LangId::Vue,
        id != LangId::Vue ==> Some(known_grammars()[id]) == known_grammar(id),
{
    lemma_languages();
}

/// A grammar is at fault exactly where one of its queries is; what is said is then
/// what is wrong with the first of these.
pub proof fn law_fault_is_that_of_the_first_query(grammar: GrammarView)
    ensures
        ({
            let id = grammar.language;
            let sound = |text: Option<Seq<char>>|
                text matches Some(t) ==> engine::query_fault(id, t) is None;
            &&& grammar_fault(grammar) is None <==> sound(grammar.functions) && sound(
                grammar.classes,
            ) && sound(grammar.imports) && sound(grammar.calls)
            &&& !sound(grammar.functions) ==> grammar_fault(grammar) == engine::query_fault(
                id,
                grammar.functions->0,
            )
            &&& sound(grammar.functions) && !sound(grammar.classes) ==> grammar_fault(grammar)
                == engine::query_fault(id, grammar.classes->0)
            &&& sound(grammar.functions) && sound(grammar.classes) && !sound(grammar.imports)
                ==> grammar_fault(grammar) == engine::query_fault(id, grammar.imports->0)
            &&& sound(grammar.functions) && sound(grammar.classes) && sound(grammar.imports)
                && !sound(grammar.calls) ==> grammar_fault(grammar) == engine::query_fault(
                id,
                grammar.calls->0,
            )
        }),
{
}

/// The first fault among languages is that of the first grammar at fault; where
/// none is, there is no fault.
pub proof fn law_first_fault_comes_first(ids: Seq<LangId>)
    ensures
        match first_fault(ids) {
            Some((id, fault)) => exists|i: int|
                {
                    &&& 0 <= i < ids.len()
                    &&& #[trigger] ids[i] == id
                    &&& known_grammar(id) matches Some(g) && grammar_fault(g) == Some(fault)
                    &&& forall|k: int|
                        0 <= k < i ==> (known_grammar(#[trigger] ids[k]) matches Some(g)
                            ==> grammar_fault(g) is None)
                },
            None => forall|k: int|
                0 <= k < ids.len() ==> (known_grammar(#[trigger] ids[k]) matches Some(g)
                    ==> grammar_fault(g) is None),
        },
    decreases ids.len(),
{
    if ids.len() > 0 {
        let rest = ids.drop_first();
        law_first_fault_comes_first(rest);
        let sound_first = known_grammar(ids[0]) matches Some(g) ==> grammar_fault(g) is None;
        if sound_first {
            match first_fault(rest) {
                Some((id, fault)) => {
                    let i = choose|i: int|
                        {
                            &&& 0 <= i < rest.len()
                            &&& #[trigger] rest[i] == id
                            &&& known_grammar(id) matches Some(g) && grammar_fault(g) == Some(fault)
                            &&& forall|k: int|
                                0 <= k < i ==> (known_grammar(#[trigger] rest[k]) matches Some(g)
                                    ==> grammar_fault(g) is None)
                        };
                    assert(ids[i + 1] == id);
                    assert forall|k: int| 0 <= k < i + 1 implies (known_grammar(
                        #[trigger] ids[k],
                    ) matches Some(g) ==> grammar_fault(g) is None) by {
                        if k > 0 {
                            assert(rest[k - 1] == ids[k]);
                        }
                    }
                },
                None => {
                    assert forall|k: int| 0 <= k < ids.len() implies (known_grammar(
                        #[trigger] ids[k],
                    ) matches Some(g) ==> grammar_fault(g) is None) by {
                        if k > 0 {
                            assert(rest[k - 1] == ids[k]);
                        }
                    }
                },
            }
        } else {
            let (id, fault) = first_fault(ids)->0;
            assert(ids[0] == id);
        }
    }
}

/// The text that is parsed is the source text, or that with a line end behind it;
/// the latter exactly in Kotlin where the last line holds an at sign.
pub proof fn law_text_is_parsed_as_it_is(id: LangId, source: Seq<char>)
    ensures
        id != LangId::Kotlin ==> parsed_text(id, source) == source,
        !source.contains('@') ==> parsed_text(id, source) == source,
        source.len() > 0 && source.last() == '\n' ==> parsed_text(id, source) == source,
        id == LangId::Kotlin ==> parsed_text(id, source) == if text::after_last(
            source,
            '\n',
        ).contains('@') {
            source + seq!['\n']
        } else {
            source
        },
{
    text::law_after_the_last_mark(source, '\n');
    let tail = text::after_last(source, '\n');
    if tail.contains('@') {
        let k = choose|k: int| 0 <= k < tail.len() && tail[k] == '@';
        assert(source[source.len() - tail.len() + k] == '@');
    }
    assert(source + seq!['\n'] =~= source.push('\n'));
}

/// Each query is run on the text, and what it matches stands under what it looks
/// for.
pub proof fn law_each_query_is_run(grammar: GrammarView, text: Seq<char>)
    ensures
        ({
            let found = grammar_matches(grammar, text);
            let run = |query: Option<Seq<char>>, matches: Option<Seq<Seq<CaptureView>>>|
                match query {
                    Some(q) => matches == Some(engine::query_matches(grammar.language, q, text)),
                    None => matches is None,
                };
            &&& run(grammar.functions, found.functions)
            &&& run(grammar.classes, found.classes)
            &&& run(grammar.imports, found.imports)
            &&& run(grammar.calls, found.calls)
        }),
{
}

} // verus!
