use ingest_parser::calls::{collect_calls, find_enclosing_function, name_of_function, read_call};
use ingest_parser::classes::{
    collect_classes, drop_arguments, extract_class_info, read_class, read_interfaces, read_parent,
};
use ingest_parser::functions::{collect_functions, extract_doc_comment, read_function};
use ingest_parser::imports::{collect_imports, read_imports, read_names};
use ingest_parser::parse::report_tree;
use ingest_parser::query::{Capture, MatchSet, QueryMatch, Role};
use ingest_parser::report::{Class, Function, FunctionCall, Import, ParseResult};
use ingest_parser::text::chars_of;
use ingest_parser::tree::{SyntaxNode, SyntaxTree};

/// A node that spans the first occurrence of `text` in `source`.
fn span(source: &str, kind: &'static str, text: &str, depth: usize) -> SyntaxNode {
    let start = source.find(text).unwrap();
    let end = start + text.len();
    SyntaxNode {
        kind,
        named: kind.chars().all(|c| c.is_alphabetic() || c == '_'),
        start_byte: start,
        end_byte: end,
        start_row: source[..start].matches('\n').count(),
        end_row: source[..end].matches('\n').count(),
        depth,
    }
}

fn tree(nodes: Vec<SyntaxNode>) -> SyntaxTree {
    SyntaxTree::new(nodes).unwrap()
}

fn found(captures: &[(&str, usize)]) -> QueryMatch {
    QueryMatch {
        captures: captures
            .iter()
            .map(|(name, node)| Capture { name: name.to_string(), node: *node })
            .collect(),
    }
}

fn import(source_entity: &str, target_entity: &str) -> Import {
    Import {
        source_entity: source_entity.to_string(),
        target_entity: target_entity.to_string(),
    }
}

#[test]
fn captures_by_their_role() {
    let m = found(&[("name", 1), ("func", 2), ("name", 3), ("arrow", 4), ("other", 5)]);
    assert_eq!(m.last_node(Role::Name), Some(3));
    assert_eq!(m.first_node(Role::Name), Some(1));
    assert_eq!(m.last_node(Role::Body), Some(4));
    assert_eq!(m.first_node(Role::Body), Some(2));
    assert_eq!(m.last_node(Role::Class), None);
    assert_eq!(m.first_node(Role::Import), None);
    for (role, name) in [
        (Role::Name, "name"),
        (Role::Body, "func"),
        (Role::Body, "arrow"),
        (Role::Body, "method"),
        (Role::Body, "func_expr"),
        (Role::Class, "class"),
        (Role::Source, "source"),
        (Role::Target, "target"),
        (Role::Import, "import"),
        (Role::Callee, "callee"),
    ] {
        assert!(role.is_fit(name));
        assert!(!role.is_fit("call"));
    }
}

#[test]
fn function_with_a_body() {
    let source = "x\nfunction /* c */ go(a)\n {\n}\n";
    let t = tree(vec![
        span(source, "program", source, 0),
        span(source, "function_declaration", "function /* c */ go(a)\n {\n}", 1),
        span(source, "function", "function", 2),
        span(source, "comment", "/* c */", 2),
        span(source, "identifier", "go", 2),
    ]);
    let m = found(&[("func", 1), ("name", 4)]);
    let expected = Function {
        name: "go".to_string(),
        signature: "function /* c */ go(a)".to_string(),
        line_start: 2,
        line_end: 4,
        doc_comment: Some("/* c */".to_string()),
    };
    assert_eq!(read_function(&t, &m, source.as_bytes()), Some(expected));
}

#[test]
fn function_without_a_body_is_its_name() {
    let source = "a\nname";
    let t = tree(vec![span(source, "program", source, 0), span(source, "identifier", "name", 1)]);
    let expected = Function {
        name: "name".to_string(),
        signature: "name".to_string(),
        line_start: 2,
        line_end: 2,
        doc_comment: None,
    };
    assert_eq!(read_function(&t, &found(&[("name", 1)]), source.as_bytes()), Some(expected));
}

#[test]
fn nothing_without_a_name() {
    let source = "ab";
    let mut empty = span(source, "identifier", "a", 1);
    empty.end_byte = 0;
    let t = tree(vec![span(source, "program", source, 0), empty]);
    let bytes = source.as_bytes();
    assert_eq!(read_function(&t, &found(&[("func", 0)]), bytes), None);
    assert_eq!(read_function(&t, &found(&[("func", 0), ("name", 1)]), bytes), None);
    assert_eq!(read_class(&t, &found(&[("class", 0)]), bytes), None);
    assert_eq!(read_class(&t, &found(&[("class", 0), ("name", 1)]), bytes), None);
    assert_eq!(read_call(&t, &found(&[("callee", 1)]), bytes), None);
    assert_eq!(read_call(&t, &found(&[]), bytes), None);
    assert!(collect_functions(&t, &vec![found(&[("func", 0)])], bytes).is_empty());
}

#[test]
fn doc_comments() {
    for kind in ["comment", "line_comment", "block_comment"] {
        doc_comments_of_kind(kind);
    }
}

fn doc_comments_of_kind(kind: &'static str) {
    let source = "/* c */ ; , name";
    let comment = || span(source, kind, "/* c */", 1);
    let root = || span(source, "program", source, 0);
    let name = || span(source, "identifier", "name", 1);
    let expected = Some("/* c */".to_string());
    let bytes = source.as_bytes();

    let next = tree(vec![root(), comment(), name()]);
    assert_eq!(extract_doc_comment(&next, 2, bytes), expected);
    // Named siblings pass over tokens.
    let token = tree(vec![root(), comment(), span(source, ",", ",", 1), name()]);
    assert_eq!(extract_doc_comment(&token, 3, bytes), expected);
    // A token of its own between, where the comment is no named node.
    let mut unnamed = comment();
    unnamed.named = false;
    let semicolon = tree(vec![root(), unnamed, span(source, ";", ";", 1), name()]);
    assert_eq!(extract_doc_comment(&semicolon, 3, bytes), expected);
    let mut unnamed = comment();
    unnamed.named = false;
    let comma = tree(vec![root(), unnamed, span(source, ",", ",", 1), name()]);
    assert_eq!(extract_doc_comment(&comma, 3, bytes), None);
    let mut unnamed = comment();
    unnamed.named = false;
    let direct = tree(vec![root(), unnamed, name()]);
    assert_eq!(extract_doc_comment(&direct, 2, bytes), expected);
    // Another named node in between.
    let word = tree(vec![root(), comment(), span(source, "word", ",", 1), name()]);
    assert_eq!(extract_doc_comment(&word, 3, bytes), None);
    assert_eq!(extract_doc_comment(&tree(vec![root(), name()]), 1, bytes), None);
    assert_eq!(extract_doc_comment(&tree(vec![root()]), 0, bytes), None);
}

#[test]
fn comment_before_the_whole_function() {
    let source = "/** d */ function /* c */ go() {}";
    let nodes = |comment: &'static str| {
        vec![
            span(source, "program", source, 0),
            span(source, comment, "/** d */", 1),
            span(source, "function_declaration", "function /* c */ go() {}", 1),
            span(source, "comment", "/* c */", 2),
            span(source, "identifier", "go", 2),
        ]
    };
    let m = found(&[("func", 2), ("name", 4)]);
    let before = read_function(&tree(nodes("comment")), &m, source.as_bytes()).unwrap();
    assert_eq!(before.doc_comment, Some("/** d */".to_string()));
    // Without one, the comment before the name counts.
    let inside = read_function(&tree(nodes("statement")), &m, source.as_bytes()).unwrap();
    assert_eq!(inside.doc_comment, Some("/* c */".to_string()));
}

#[test]
fn parents_of_classes() {
    let parent = |heading: &str| read_parent(&chars_of(heading));
    assert_eq!(parent("class A extends B "), Some("B".to_string()));
    assert_eq!(parent("class Foo extends\n Bar implements I, J"), Some("Bar".to_string()));
    assert_eq!(parent("class A extends  "), None);
    assert_eq!(parent("class A"), None);
    assert_eq!(parent("interface A extends B, C"), Some("B".to_string()));
    assert_eq!(parent("extendsBase"), Some("Base".to_string()));
    assert_eq!(parent("extendsA extendsB"), Some("A".to_string()));
    assert_eq!(parent("extends , x"), None);
}

#[test]
fn interfaces_of_classes() {
    let interfaces = |heading: &str| read_interfaces(&chars_of(heading));
    assert_eq!(interfaces("class A implements B, C, , E "), vec!["B", "C", "E"]);
    assert_eq!(interfaces("class A implements B implements C"), vec!["B"]);
    assert!(interfaces("class A ").is_empty());
    // An entry of nothing but marks is kept, empty.
    assert_eq!(interfaces("implements >, A"), vec!["", "A"]);
}

#[test]
fn type_arguments_are_dropped() {
    let plain = |s: &str| -> String { drop_arguments(&chars_of(s)).into_iter().collect() };
    assert_eq!(plain("A<B, C<D>>, E"), "A, E");
    assert_eq!(plain("A<() => B> extends C"), "A extends C");
    assert_eq!(plain("a => b > c"), "a => b > c");
    assert_eq!(plain("A<B"), "A");
    assert_eq!(plain(""), "");
}

#[test]
fn headings_end_at_the_body() {
    let source = "class A extends mix({b: 1}) implements I<J, K>, L { /* implements M */ }";
    let nodes = |body: &'static str| {
        vec![
            span(source, "class_declaration", source, 0),
            span(source, "type_identifier", "A", 1),
            span(source, "object", "{b: 1}", 2),
            span(source, body, "{ /* implements M */ }", 1),
        ]
    };
    let m = found(&[("class", 0), ("name", 1)]);
    let interfaces = |body: &'static str| {
        extract_class_info(&tree(nodes(body)), &m, source.as_bytes()).1
    };
    assert_eq!(interfaces("class_body"), vec!["I", "L"]);
    assert_eq!(interfaces("enum_class_body"), vec!["I", "L"]);
    // Without a body the first brace ends the heading.
    assert_eq!(interfaces("block"), Vec::<String>::new());
}

#[test]
fn heritage_of_all_class_captures() {
    let source = "extendsA implements X{ extendsB implements Y{ implements Z{";
    let t = tree(vec![
        span(source, "program", source, 0),
        span(source, "class", "extendsA implements X{", 1),
        span(source, "class", "extendsB implements Y{", 1),
        span(source, "class", "implements Z{", 1),
        span(source, "name", "A", 1),
    ]);
    let m = found(&[("class", 1), ("name", 4), ("class", 2), ("class", 3), ("func", 1)]);
    let heritage = extract_class_info(&t, &m, source.as_bytes());
    assert_eq!(
        heritage,
        (
            Some("B".to_string()),
            vec!["X".to_string(), "Y".to_string(), "Z".to_string()]
        )
    );
    assert_eq!(
        collect_classes(&t, &vec![found(&[]), m], source.as_bytes()),
        vec![Class {
            name: "A".to_string(),
            parent_class: Some("B".to_string()),
            interfaces: vec!["X".to_string(), "Y".to_string(), "Z".to_string()],
        }]
    );
}

#[test]
fn heritage_is_read_after_the_name() {
    let source = "@D({implements: X}) class Aextends<T extends U> extends B implements I { }";
    let mut nodes = vec![
        span(source, "class_declaration", source, 0),
        span(source, "decorator", "@D({implements: X})", 1),
        span(source, "type_identifier", "Aextends", 1),
        span(source, "type_parameters", "<T extends U>", 1),
        span(source, "type_identifier", "U", 2),
        span(source, "class_heritage", "extends B implements I", 1),
    ];
    let m = found(&[("class", 0), ("name", 2)]);
    let bytes = source.as_bytes();
    assert_eq!(
        extract_class_info(&tree(nodes), &m, bytes),
        (Some("B".to_string()), vec!["I".to_string()])
    );
    // Without a name, all of the text counts.
    nodes = vec![span(source, "class_declaration", "class Aextends<T extends U> extends B", 0)];
    assert_eq!(
        extract_class_info(&tree(nodes), &found(&[("class", 0)]), bytes),
        (None, vec![])
    );
}

#[test]
fn names_in_import_statements() {
    let names = |head: &str| read_names(&chars_of(head));
    assert_eq!(
        names("import { A, B as C,, type D , type E as F, type, type as G } from "),
        vec!["A", "C", "D", "F", "type", "G"]
    );
    assert_eq!(names("import {} from "), Vec::<String>::new());
    assert_eq!(names("import { from } from "), vec!["from"]);
    assert_eq!(names("import X, { A"), vec!["A"]);
    assert_eq!(names("import A from "), vec!["A"]);
    assert_eq!(names("import\n  A\nfrom "), vec!["A"]);
    assert_eq!(names("import type A from "), vec!["A"]);
    assert_eq!(names("import type from "), vec!["type"]);
    assert_eq!(names("import reimport from "), vec!["reimport"]);
    assert_eq!(names("import from from "), vec!["from"]);
    assert_eq!(names("import * as A from "), vec!["A"]);
    assert_eq!(names("import type * as A from "), vec!["A"]);
    assert_eq!(names("import Foo, * as Bar from "), vec!["Foo", "Bar"]);
    assert_eq!(names("import * as A"), vec!["A"]);
    assert_eq!(names("import  from "), Vec::<String>::new());
    assert_eq!(names("import "), vec![""]);
    assert_eq!(names("import A"), vec![""]);
    assert_eq!(names("use "), vec![""]);
    assert_eq!(names("import { A as  as B } from "), vec![""]);
}

#[test]
fn the_module_names_nothing() {
    for (source, string, name) in [
        ("import x from '* as y'", "'* as y'", "x"),
        ("import x from '{y}'", "'{y}'", "x"),
        ("import x from 'm' with { type: 'json' }", "'m'", "x"),
    ] {
        let t = tree(vec![
            span(source, "import_statement", source, 0),
            span(source, "string", string, 1),
        ]);
        assert_eq!(
            read_imports(&t, &found(&[("import", 0), ("source", 1)]), source.as_bytes(), true),
            vec![import(name, string.trim_matches('\''))]
        );
    }
}

#[test]
fn imports_by_their_captures() {
    let source = "import { A } from '\"m/n\"' com.ex.Foo";
    let t = tree(vec![
        span(source, "program", source, 0),
        span(source, "import_statement", "import { A } from '\"m/n\"'", 1),
        span(source, "string", "'\"m/n\"'", 1),
        span(source, "path", "com.ex.Foo", 1),
    ]);
    let bytes = source.as_bytes();
    let of = |captures: &[(&str, usize)], with_calls: bool| {
        read_imports(&t, &found(captures), bytes, with_calls)
    };
    // The statement, then the target, then the module alone.
    assert_eq!(of(&[("import", 1), ("source", 2), ("target", 3)], true), vec![import("A", "m/n")]);
    assert_eq!(of(&[("source", 2), ("target", 3)], true), vec![import("Foo", "com.ex.Foo")]);
    assert_eq!(of(&[("source", 2)], true), vec![import("n", "m/n")]);
    assert_eq!(of(&[("source", 2)], false), Vec::<Import>::new());
    assert_eq!(of(&[("import", 1), ("target", 3)], true), Vec::<Import>::new());
    assert_eq!(
        collect_imports(
            &t,
            &vec![found(&[("source", 2)]), found(&[]), found(&[("source", 2), ("import", 1)])],
            bytes,
            true
        ),
        vec![import("n", "m/n"), import("A", "m/n")]
    );
}

#[test]
fn matches_do_not_depend_on_each_other() {
    let source = "function_of a { b } extendsP implements I{";
    let t = tree(vec![
        span(source, "file", source, 0),
        span(source, "function_declaration", "function_of a { b }", 1),
        span(source, "identifier", "a", 2),
        span(source, "identifier", "b", 2),
        span(source, "class", "extendsP implements I{", 1),
    ]);
    let bytes = source.as_bytes();
    let first = || found(&[("func", 1), ("name", 2), ("callee", 3), ("source", 3)]);
    let second = || found(&[("class", 4), ("name", 3), ("source", 2), ("import", 1)]);
    let mut functions = collect_functions(&t, &vec![first()], bytes);
    functions.extend(collect_functions(&t, &vec![second()], bytes));
    assert_eq!(collect_functions(&t, &vec![first(), second()], bytes), functions);
    assert_eq!(functions.len(), 2);
    let mut classes = collect_classes(&t, &vec![first()], bytes);
    classes.extend(collect_classes(&t, &vec![second()], bytes));
    assert_eq!(collect_classes(&t, &vec![first(), second()], bytes), classes);
    assert_eq!(classes[1].parent_class, Some("P".to_string()));
    let mut imports = collect_imports(&t, &vec![first()], bytes, true);
    imports.extend(collect_imports(&t, &vec![second()], bytes, true));
    assert_eq!(collect_imports(&t, &vec![first(), second()], bytes, true), imports);
    assert_eq!(imports, vec![import("b", "b"), import("", "a")]);
    let mut calls = collect_calls(&t, &vec![first()], bytes);
    calls.extend(collect_calls(&t, &vec![second()], bytes));
    assert_eq!(collect_calls(&t, &vec![first(), second()], bytes), calls);
    assert_eq!(calls.len(), 1);
}

#[test]
fn imports_of_paths_take_the_last_segment() {
    for (kind, module, name) in [
        ("import_spec", "\"m/p\"", "p"),
        ("import_spec", "\"gopkg.in/yaml.v3\"", "yaml.v3"),
        ("import", "com.example.Foo", "Foo"),
        ("import", "Foo", "Foo"),
    ] {
        let source = format!("import {{ x }} {}", module);
        let t = tree(vec![
            span(&source, kind, &source, 0),
            span(&source, "path", module, 1),
        ]);
        let m = found(&[("import", 0), ("source", 1)]);
        let target = module.trim_matches('"');
        assert_eq!(
            read_imports(&t, &m, source.as_bytes(), true),
            vec![import(name, target)]
        );
        assert_eq!(
            read_imports(&t, &m, source.as_bytes(), false),
            vec![import(name, target)]
        );
    }
    let source = "use a::b::C;";
    let t = tree(vec![
        span(source, "use_declaration", source, 0),
        span(source, "scoped_identifier", "a::b::C", 1),
    ]);
    assert_eq!(
        read_imports(&t, &found(&[("import", 0), ("source", 1)]), source.as_bytes(), true),
        vec![import("", "a::b::C")]
    );
}

#[test]
fn callers_by_their_names() {
    let source = "f = (p) => g(), h";
    let declared = tree(vec![
        span(source, "program", source, 0),
        span(source, "variable_declarator", "f = (p) => g()", 1),
        span(source, "identifier", "f", 2),
        span(source, "=", "=", 2),
        span(source, "arrow_function", "(p) => g()", 2),
        span(source, "formal_parameters", "(p)", 3),
        span(source, "identifier", "p", 4),
        span(source, "call_expression", "g()", 3),
        span(source, "identifier", "g", 4),
        span(source, "identifier", "h", 1),
    ]);
    let bytes = source.as_bytes();
    assert_eq!(name_of_function(&declared, 4, bytes), Some("f".to_string()));
    assert_eq!(find_enclosing_function(&declared, 8, bytes), Some("f".to_string()));
    assert_eq!(find_enclosing_function(&declared, 9, bytes), None);
    assert_eq!(find_enclosing_function(&declared, 0, bytes), None);
    assert_eq!(
        collect_calls(&declared, &vec![found(&[("callee", 9)]), found(&[("callee", 8)])], bytes),
        vec![FunctionCall { caller_name: "f".to_string(), callee_name: "g".to_string() }]
    );
}

#[test]
fn calls_of_a_function_to_itself_are_left_out() {
    let source = "f g f";
    let mut again = span(source, "identifier", "f", 1);
    again.start_byte = 4;
    again.end_byte = 5;
    let t = tree(vec![
        span(source, "function_declaration", source, 0),
        span(source, "identifier", "f", 1),
        span(source, "identifier", "g", 1),
        again,
    ]);
    let bytes = source.as_bytes();
    assert_eq!(read_call(&t, &found(&[("callee", 3)]), bytes), None);
    assert_eq!(
        read_call(&t, &found(&[("callee", 2)]), bytes),
        Some(FunctionCall { caller_name: "f".to_string(), callee_name: "g".to_string() })
    );
}

#[test]
fn a_name_of_its_own_comes_first() {
    let source = "f = function k() q g";
    let t = tree(vec![
        span(source, "variable_declarator", source, 0),
        span(source, "identifier", "f", 1),
        span(source, "function_expression", "function k() q g", 1),
        span(source, "identifier", "k", 2),
        span(source, "identifier", "q", 2),
        span(source, "identifier", "g", 2),
    ]);
    assert_eq!(find_enclosing_function(&t, 5, source.as_bytes()), Some("k".to_string()));
}

#[test]
fn no_name_among_the_parameters() {
    let source = "f = x => g(x)";
    let t = tree(vec![
        span(source, "variable_declarator", source, 0),
        span(source, "identifier", "f", 1),
        span(source, "arrow_function", "x => g(x)", 1),
        span(source, "identifier", "x", 2),
        span(source, "call_expression", "g(x)", 2),
        span(source, "identifier", "g", 3),
    ]);
    assert_eq!(name_of_function(&t, 2, source.as_bytes()), Some("f".to_string()));
    assert_eq!(find_enclosing_function(&t, 5, source.as_bytes()), Some("f".to_string()));
}

#[test]
fn functions_of_every_grammar() {
    for (kind, name) in [
        ("function_declaration", "identifier"),
        ("generator_function", "identifier"),
        ("generator_function_declaration", "identifier"),
        ("function_expression", "identifier"),
        ("method_definition", "property_identifier"),
        ("method_definition", "private_property_identifier"),
        ("method_declaration", "field_identifier"),
        ("function_item", "identifier"),
    ] {
        let source = "f g";
        let t = tree(vec![
            span(source, kind, source, 0),
            span(source, name, "f", 1),
            span(source, "statement_block", "g", 1),
            span(source, "identifier", "g", 2),
        ]);
        assert_eq!(find_enclosing_function(&t, 3, source.as_bytes()), Some("f".to_string()));
    }
}

#[test]
fn no_caller_beyond_a_file() {
    for boundary in ["program", "source_file"] {
        let source = "f g";
        let t = tree(vec![
            span(source, "function_declaration", source, 0),
            span(source, "identifier", "f", 1),
            span(source, boundary, "g", 1),
            span(source, "identifier", "g", 2),
        ]);
        assert_eq!(find_enclosing_function(&t, 3, source.as_bytes()), None);
    }
    for kind in ["block", "statement_block", "class_body"] {
        let source = "f g";
        let t = tree(vec![
            span(source, "function_declaration", source, 0),
            span(source, "simple_identifier", "f", 1),
            span(source, kind, "g", 1),
            span(source, "identifier", "g", 2),
        ]);
        assert_eq!(find_enclosing_function(&t, 3, source.as_bytes()), Some("f".to_string()));
    }
}

#[test]
fn functions_without_a_name_call_nothing() {
    for kind in ["method_definition", "generator_function_declaration", "arrow_function"] {
        let source = "f g";
        let t = tree(vec![
            span(source, "variable", source, 0),
            span(source, "identifier", "f", 1),
            span(source, kind, "g", 1),
            span(source, "call", "g", 2),
            span(source, "identifier", "g", 3),
        ]);
        assert_eq!(find_enclosing_function(&t, 4, source.as_bytes()), None);
    }
}

#[test]
fn a_report_holds_what_the_matches_show() {
    let source = "fun a { b } import c";
    let t = tree(vec![
        span(source, "file", source, 0),
        span(source, "function_declaration", "fun a { b }", 1),
        span(source, "identifier", "a", 2),
        span(source, "identifier", "b", 2),
        span(source, "import", "import c", 1),
        span(source, "identifier", "c", 2),
    ]);
    let all = MatchSet {
        functions: Some(vec![found(&[("func", 1), ("name", 2)])]),
        classes: Some(vec![found(&[("class", 1), ("name", 2)])]),
        imports: Some(vec![found(&[("import", 4), ("source", 5)]), found(&[("source", 5)])]),
        calls: Some(vec![found(&[("callee", 3)])]),
    };
    let expected = ParseResult {
        path: "p".to_string(),
        functions: vec![Function {
            name: "a".to_string(),
            signature: "fun a".to_string(),
            line_start: 1,
            line_end: 1,
            doc_comment: None,
        }],
        classes: vec![Class { name: "a".to_string(), parent_class: None, interfaces: vec![] }],
        imports: vec![import("c", "c"), import("c", "c")],
        calls: vec![FunctionCall { caller_name: "a".to_string(), callee_name: "b".to_string() }],
        error: None,
        duration_us: 0,
    };
    assert_eq!(report_tree("p", &t, &all, source.as_bytes()), expected);

    // Without a query for calls, a module on its own is no import.
    let imports_only = MatchSet {
        functions: None,
        classes: None,
        imports: Some(vec![found(&[("source", 5)])]),
        calls: None,
    };
    assert_eq!(
        report_tree("p", &t, &imports_only, source.as_bytes()),
        ParseResult::bare("p", None)
    );
}
