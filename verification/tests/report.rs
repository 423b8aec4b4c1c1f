use ingest_parser::report::{
    summarize, Class, Function, FunctionCall, Import, ParseResult, Summary,
};

fn full(path: &str, functions: usize, classes: usize, imports: usize, calls: usize) -> ParseResult {
    let mut result = ParseResult::bare(path, None);
    for i in 0..functions {
        result.functions.push(Function {
            name: format!("f{}", i),
            signature: String::new(),
            line_start: 1,
            line_end: 1,
            doc_comment: None,
        });
    }
    for i in 0..classes {
        result.classes.push(Class {
            name: format!("c{}", i),
            parent_class: None,
            interfaces: Vec::new(),
        });
    }
    for _ in 0..imports {
        result.imports.push(Import { source_entity: String::new(), target_entity: String::new() });
    }
    for _ in 0..calls {
        result.calls.push(FunctionCall { caller_name: String::new(), callee_name: String::new() });
    }
    result
}

#[test]
fn bare_results_hold_nothing_else() {
    let result = ParseResult::bare("a.ts", Some("why".to_string()));
    assert_eq!(result.path, "a.ts");
    assert_eq!(result.error, Some("why".to_string()));
    assert!(result.functions.is_empty() && result.classes.is_empty());
    assert!(result.imports.is_empty() && result.calls.is_empty());
    assert_eq!(result.duration_us, 0);
}

#[test]
fn durations_keep_their_low_bits() {
    let timed = full("a", 1, 0, 0, 0).with_duration(1523);
    assert_eq!(timed.duration_us, 1523);
    assert_eq!(timed.functions.len(), 1);
    assert_eq!(ParseResult::bare("a", None).with_duration((1u128 << 64) + 7).duration_us, 7);
}

#[test]
fn totals_over_results() {
    let first = vec![full("a", 1, 2, 3, 4), ParseResult::bare("b", Some(String::new()))];
    assert_eq!(
        summarize(&first),
        Summary { ok: 1, failed: 1, functions: 1, classes: 2, imports: 3, calls: 4 }
    );
    let second = vec![full("c", 10, 20, 30, 40)];
    let mut both = first;
    both.extend(second);
    assert_eq!(
        summarize(&both),
        Summary { ok: 2, failed: 1, functions: 11, classes: 22, imports: 33, calls: 44 }
    );
    assert_eq!(
        summarize(&Vec::new()),
        Summary { ok: 0, failed: 0, functions: 0, classes: 0, imports: 0, calls: 0 }
    );
}
