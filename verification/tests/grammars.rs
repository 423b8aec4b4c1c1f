use ingest_parser::grammar::{init_grammars, Grammar, Grammars};
use ingest_parser::language::LangId;
use ingest_parser::parse::parse_file;
use ingest_parser::report::{Class, Function, FunctionCall, Import, ParseResult};

fn parsed(id: LangId, source: &str) -> ParseResult {
    let grammars = init_grammars().unwrap();
    parse_file("path", source, grammars.get(id).unwrap())
}

fn function(name: &str, signature: &str, line_start: usize, line_end: usize) -> Function {
    Function {
        name: name.to_string(),
        signature: signature.to_string(),
        line_start,
        line_end,
        doc_comment: None,
    }
}

fn class(name: &str, parent_class: Option<&str>, interfaces: &[&str]) -> Class {
    Class {
        name: name.to_string(),
        parent_class: parent_class.map(|s| s.to_string()),
        interfaces: interfaces.iter().map(|s| s.to_string()).collect(),
    }
}

fn documented(function: Function, comment: &str) -> Function {
    Function { doc_comment: Some(comment.to_string()), ..function }
}

fn import(source_entity: &str, target_entity: &str) -> Import {
    Import {
        source_entity: source_entity.to_string(),
        target_entity: target_entity.to_string(),
    }
}

fn call(caller_name: &str, callee_name: &str) -> FunctionCall {
    FunctionCall { caller_name: caller_name.to_string(), callee_name: callee_name.to_string() }
}

#[test]
fn all_grammars_are_loaded() {
    let grammars = init_grammars().unwrap();
    for id in [
        LangId::TypeScript,
        LangId::Tsx,
        LangId::JavaScript,
        LangId::Kotlin,
        LangId::Go,
        LangId::Rust,
        LangId::Html,
        LangId::Css,
    ] {
        assert!(grammars.get(id).is_some());
        assert!(matches!(Grammar::load(id), Ok(Some(_))));
    }
    assert!(grammars.get(LangId::Vue).is_none());
    assert!(matches!(Grammar::load(LangId::Vue), Ok(None)));
}

#[test]
fn some_grammars_are_loaded() {
    let grammars = Grammars::load(&[LangId::Go, LangId::Vue, LangId::Css, LangId::Go]).unwrap();
    assert!(grammars.get(LangId::Go).is_some());
    assert!(grammars.get(LangId::Css).is_some());
    assert!(grammars.get(LangId::Vue).is_none());
    assert!(grammars.get(LangId::Rust).is_none());
}

#[test]
fn typescript_entities() {
    let source = "\
import { Component, Input as In } from '@angular/core';
import Foo from \"./foo\";
import * as path from 'path';
import './side';

/** Entry point */
async function main() {
  bootstrap();
}
const add = (a, b) => sum(a, b);
const again = () => again();
const fe = function () { helper(); };
class AppService extends Base<T> implements Injectable, OnInit {
  run(x = start()) { this.go(); }
}
";
    let result = parsed(LangId::TypeScript, source);
    assert_eq!(result.path, "path");
    assert_eq!(result.error, None);
    assert_eq!(result.duration_us, 0);
    assert_eq!(
        result.functions,
        vec![
            documented(function("main", "async function main()", 7, 9), "/** Entry point */"),
            function("add", "add = (a, b) => sum(a, b)", 10, 10),
            function("again", "again = () => again()", 11, 11),
            function("fe", "fe = function ()", 12, 12),
            function("run", "run(x = start())", 14, 14),
        ]
    );
    assert_eq!(result.classes, vec![class("AppService", Some("Base"), &["Injectable", "OnInit"])]);
    assert_eq!(
        result.imports,
        vec![
            import("Component", "@angular/core"),
            import("In", "@angular/core"),
            import("Foo", "./foo"),
            import("path", "path"),
            import("", "./side"),
        ]
    );
    assert_eq!(
        result.calls,
        vec![
            call("main", "bootstrap"),
            call("add", "sum"),
            call("fe", "helper"),
            call("run", "start"),
            call("run", "go"),
        ]
    );
}

#[test]
fn the_example_of_the_output_format() {
    let source = "\
/** Entry point */ async function main() {
  bootstrap();
}
import { Component } from '@angular/core';
class AppService implements Injectable {}
";
    let result = parsed(LangId::TypeScript, source);
    assert_eq!(
        result.functions,
        vec![documented(function("main", "async function main()", 1, 3), "/** Entry point */")]
    );
    assert_eq!(result.classes, vec![class("AppService", None, &["Injectable"])]);
    assert_eq!(result.imports, vec![import("Component", "@angular/core")]);
    assert_eq!(result.calls, vec![call("main", "bootstrap")]);
    assert_eq!(result.error, None);
}

#[test]
fn typescript_headings_of_classes() {
    let source = "\
@Component({ selector: 'implements X' })
class Foo<T extends U> extends Bar implements I, J { /* implements K */ }
class A { /* extends B implements C */ }
class D<T extends U> {}
class E extends F<{}> implements G<H, I>, J {}
";
    assert_eq!(
        parsed(LangId::TypeScript, source).classes,
        vec![
            class("Foo", Some("Bar"), &["I", "J"]),
            class("A", None, &[]),
            class("D", None, &[]),
            class("E", Some("F"), &["G", "J"]),
        ]
    );
}

#[test]
fn calls_in_nested_functions() {
    let source = "\
function outer() {
  xs.map(x => inner(x));
  const named = y => deep(y);
  if (a) { last(); }
}
const gen = function* () { step(); };
class C { #p() { q(); } }
top();
";
    assert_eq!(
        parsed(LangId::TypeScript, source).calls,
        vec![
            call("outer", "map"),
            call("named", "deep"),
            call("outer", "last"),
            call("gen", "step"),
            call("#p", "q"),
        ]
    );
}

#[test]
fn typescript_comment_before_a_name() {
    let result = parsed(LangId::TypeScript, "function /* what */ go() {}");
    assert_eq!(result.functions.len(), 1);
    assert_eq!(result.functions[0].signature, "function /* what */ go()");
    assert_eq!(result.functions[0].doc_comment, Some("/* what */".to_string()));
}

#[test]
fn tsx_entities() {
    let source = "const App = () => <div>{render()}</div>;\n";
    let result = parsed(LangId::Tsx, source);
    assert_eq!(
        result.functions,
        vec![function("App", "App = () => <div>", 1, 1)]
    );
    assert_eq!(result.calls, vec![call("App", "render")]);
    // The same text is no TypeScript.
    assert_ne!(parsed(LangId::TypeScript, source).functions, result.functions);
}

#[test]
fn javascript_entities() {
    let source = "\
import def, { named } from 'lib';
class A extends B { m() { f(); } }
function* gen() { yield 1; }
export const é = x => y.z(x);
";
    let result = parsed(LangId::JavaScript, source);
    assert_eq!(
        result.functions,
        vec![function("m", "m()", 2, 2), function("é", "é = x => y.z(x)", 4, 4)]
    );
    assert_eq!(result.classes, vec![class("A", Some("B"), &[])]);
    assert_eq!(result.imports, vec![import("named", "lib")]);
    assert_eq!(result.calls, vec![call("m", "f"), call("é", "z")]);
}

#[test]
fn kotlin_entities() {
    let source = "\
import com.example.Foo
class Service {
    /** Runs. */
    fun run() {
        helper()
    }
}
object Single
fun main() = run()
";
    let result = parsed(LangId::Kotlin, source);
    assert_eq!(
        result.functions,
        vec![
            documented(function("run", "fun run()", 4, 6), "/** Runs. */"),
            function("main", "fun main() = run()", 9, 9),
        ]
    );
    assert_eq!(result.classes, vec![class("Service", None, &[]), class("Single", None, &[])]);
    assert_eq!(result.imports, vec![import("Foo", "com.example.Foo")]);
    assert_eq!(result.calls, vec![call("run", "helper"), call("main", "run")]);
}

#[test]
fn kotlin_texts_that_end_in_an_annotation() {
    for source in ["class A\n@B", "class A {\n  val b = 1\n  @C(", "@", "class A\n@B constructor"] {
        let result = parsed(LangId::Kotlin, source);
        assert_eq!(result.error, None);
        assert_eq!(result, parsed(LangId::Kotlin, &format!("{}\n", source)));
    }
    assert_eq!(parsed(LangId::Kotlin, "class A\n@B").classes, vec![class("A", None, &[])]);
    let last = parsed(LangId::Kotlin, "fun f() = g() // @h");
    assert_eq!(last.functions, vec![function("f", "fun f() = g()", 1, 1)]);
}

#[test]
fn lines_are_in_order() {
    let source = "\
function a() {}
const b = () => {
  return 1;
};
class C { d(
  x
) {} }";
    let result = parsed(LangId::TypeScript, source);
    let lines: Vec<(usize, usize)> =
        result.functions.iter().map(|f| (f.line_start, f.line_end)).collect();
    assert_eq!(lines, vec![(1, 1), (2, 4), (5, 7)]);
    assert_eq!(source.matches('\n').count() + 1, 7);
}

#[test]
fn go_entities() {
    let source = "\
package main

import (
\t\"fmt\"
\t\"net/http\"
)

// Run starts.
func Run() {
\tfmt.Println(\"x\")
\thelper()
}

type T struct{}

func (t T) Do() { helper() }

func helper() {}
";
    let result = parsed(LangId::Go, source);
    assert_eq!(
        result.functions,
        vec![
            documented(function("Run", "func Run()", 9, 12), "// Run starts."),
            function("helper", "func helper()", 18, 18),
        ]
    );
    assert_eq!(result.classes, Vec::new());
    assert_eq!(result.imports, vec![import("fmt", "fmt"), import("http", "net/http")]);
    assert_eq!(result.calls, vec![call("Run", "helper"), call("Do", "helper")]);
}

#[test]
fn rust_entities() {
    let source = "\
use std::collections::HashMap;
use foo;

struct A { x: u32 }
enum E { V }
trait T {}

/** Runs. */
fn run(x: u32) -> u32 {
    helper(x);
    xs.iter().map(|y| go(y));
    a::b(x)
}
";
    let result = parsed(LangId::Rust, source);
    assert_eq!(result.functions, vec![documented(function("run", "fn run(x: u32) -> u32", 9, 13), "/** Runs. */")]);
    assert_eq!(result.classes, vec![class("A", None, &[]), class("E", None, &[]), class("T", None, &[])]);
    assert_eq!(
        result.imports,
        vec![import("", "std::collections::HashMap"), import("", "foo")]
    );
    assert_eq!(
        result.calls,
        vec![
            call("run", "helper"),
            call("run", "iter"),
            call("run", "map"),
            call("run", "go"),
            call("run", "a::b"),
        ]
    );
}

#[test]
fn html_and_css_are_tracked_only() {
    assert_eq!(
        parsed(LangId::Html, "<script>function f() { g(); }</script>"),
        ParseResult::bare("path", None)
    );
    assert_eq!(parsed(LangId::Css, "a { color: red; }"), ParseResult::bare("path", None));
}

#[test]
fn empty_and_broken_sources() {
    for id in [LangId::TypeScript, LangId::Kotlin, LangId::Go, LangId::Rust] {
        assert_eq!(parsed(id, ""), ParseResult::bare("path", None));
    }
    let broken = parsed(LangId::TypeScript, "function ok() {}\n)))((( %%% class");
    assert_eq!(broken.error, None);
    assert_eq!(broken.functions[0].name, "ok");
}

#[test]
fn texts_outside_ascii() {
    let result = parsed(LangId::TypeScript, "const 名前 = () => 呼ぶ();\nclass Größe {}");
    assert_eq!(result.functions, vec![function("名前", "名前 = () => 呼ぶ()", 1, 1)]);
    assert_eq!(result.classes, vec![class("Größe", None, &[])]);
    assert_eq!(result.calls, vec![call("名前", "呼ぶ")]);
}

#[test]
fn large_sources() {
    let mut source = String::new();
    for i in 0..2000 {
        source.push_str(&format!("const f{} = () => g{}();\n", i, i));
    }
    let result = parsed(LangId::JavaScript, &source);
    assert_eq!(result.functions.len(), 2000);
    assert_eq!(result.calls.len(), 2000);
    assert_eq!(result.functions[1999].line_start, 2000);
    assert_eq!(result.calls[1234], call("f1234", "g1234"));
}
