use ingest_parser::grammar::{init_grammars, Grammars};
use ingest_parser::language::LangId;
use ingest_parser::parse::parse_file;
use ingest_parser::pipeline::{
    finish_file, path_of_line, plan_file, prepare_file, report_file, Job, Plan,
};
use ingest_parser::report::ParseResult;

/// What is reported at once, if anything is.
fn reported(job: Job) -> Option<ParseResult> {
    match job {
        Job::Report(result) => Some(result),
        Job::Parse { .. } => None,
    }
}

fn error(path: &str, message: &str) -> ParseResult {
    ParseResult::bare(path, Some(message.to_string()))
}

#[test]
fn paths_of_lines() {
    assert_eq!(path_of_line(" src/a b.ts\r"), Some("src/a b.ts".to_string()));
    assert_eq!(path_of_line("x"), Some("x".to_string()));
    assert_eq!(path_of_line(""), None);
    assert_eq!(path_of_line(" \t\u{3000}"), None);
}

#[test]
fn plans_by_language() {
    assert_eq!(plan_file("a.kt"), Plan::Read(LangId::Kotlin));
    assert_eq!(plan_file("a.vue"), Plan::Read(LangId::Vue));
    assert_eq!(plan_file("a.py"), Plan::Report(error("a.py", "unsupported language")));
}

#[test]
fn files_that_cannot_be_read() {
    let grammars = init_grammars().unwrap();
    let job = prepare_file("a.vue", LangId::Vue, Err("No such file".to_string()), &grammars);
    assert_eq!(reported(job), Some(error("a.vue", "read error: No such file")));
}

#[test]
fn components_without_a_script_are_no_error() {
    let grammars = init_grammars().unwrap();
    let source = "<template></template>".to_string();
    let job = prepare_file("a.vue", LangId::Vue, Ok(source), &grammars);
    assert_eq!(reported(job), Some(ParseResult::bare("a.vue", None)));
}

#[test]
fn grammars_that_are_not_loaded() {
    let none = Grammars::load(&[]).unwrap();
    let job = prepare_file("a.go", LangId::Go, Ok("package a".to_string()), &none);
    assert_eq!(reported(job), Some(error("a.go", "grammar not loaded for Go")));
    let script = "<script lang='ts'>f()</script>".to_string();
    let job = prepare_file("a.vue", LangId::Vue, Ok(script), &none);
    assert_eq!(reported(job), Some(error("a.vue", "grammar not loaded for TypeScript")));
}

#[test]
fn files_are_parsed_as_a_whole() {
    let grammars = init_grammars().unwrap();
    match prepare_file("a.go", LangId::Go, Ok("package a\nfunc F() {}".to_string()), &grammars) {
        Job::Parse { source, grammar } => {
            assert_eq!(source, "package a\nfunc F() {}");
            let result = parse_file("a.go", &source, grammar);
            assert_eq!(result.path, "a.go");
            assert_eq!(result.functions[0].name, "F");
        }
        Job::Report(_) => panic!("not parsed"),
    }
}

#[test]
fn reports_of_files() {
    let grammars = init_grammars().unwrap();
    let source = "package a\nfunc F() { g() }".to_string();
    let result = report_file("a.go", LangId::Go, Ok(source.clone()), &grammars);
    assert_eq!(result, parse_file("a.go", &source, grammars.get(LangId::Go).unwrap()));
    assert_eq!(result.calls[0].caller_name, "F");
    let failed = report_file("a.go", LangId::Go, Err("gone".to_string()), &grammars);
    assert_eq!(failed, error("a.go", "read error: gone"));
    let script = "<script>const f = () => g();</script>".to_string();
    let job = prepare_file("a.vue", LangId::Vue, Ok(script.clone()), &grammars);
    let finished = finish_file("a.vue", job);
    assert_eq!(finished, report_file("a.vue", LangId::Vue, Ok(script), &grammars));
    assert_eq!(finished.functions[0].name, "f");
}

#[test]
fn components_are_parsed_by_their_script() {
    let grammars = init_grammars().unwrap();
    let source = "<template/>\n<script lang=\"ts\">\nconst f = (x: number) => g(x);\n</script>";
    match prepare_file("a.vue", LangId::Vue, Ok(source.to_string()), &grammars) {
        Job::Parse { source, grammar } => {
            assert_eq!(source, "\nconst f = (x: number) => g(x);\n");
            let result = parse_file("a.vue", &source, grammar);
            // Lines count from the start of the script.
            assert_eq!(result.functions[0].line_start, 2);
            assert_eq!(result.functions[0].signature, "f = (x: number) => g(x)");
            assert_eq!(result.calls[0].callee_name, "g");
        }
        Job::Report(_) => panic!("not parsed"),
    }
}
