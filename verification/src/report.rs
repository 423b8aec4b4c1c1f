//! What is reported of a source file, and the totals over many files.
use vstd::prelude::*;

verus! {

/// A function, with its lines counted from one.
#[derive(Debug, PartialEq, Eq)]
pub struct Function {
    pub name: String,
    pub signature: String,
    pub line_start: usize,
    pub line_end: usize,
    pub doc_comment: Option<String>,
}

/// A class, or what stands for one in the language.
#[derive(Debug, PartialEq, Eq)]
pub struct Class {
    pub name: String,
    pub parent_class: Option<String>,
    pub interfaces: Vec<String>,
}

/// An imported name and the module that it comes from.
#[derive(Debug, PartialEq, Eq)]
pub struct Import {
    pub source_entity: String,
    pub target_entity: String,
}

/// A call from one function to another.
#[derive(Debug, PartialEq, Eq)]
pub struct FunctionCall {
    pub caller_name: String,
    pub callee_name: String,
}

/// What is reported of one source file.
#[derive(Debug, PartialEq, Eq)]
pub struct ParseResult {
    pub path: String,
    pub functions: Vec<Function>,
    pub classes: Vec<Class>,
    pub imports: Vec<Import>,
    pub calls: Vec<FunctionCall>,
    pub error: Option<String>,
    pub duration_us: u64,
}

/// The totals over the results of many files.
#[derive(Debug, Clone, Copy, PartialEq, Eq)]
pub struct Summary {
    pub ok: usize,
    pub failed: usize,
    pub functions: u128,
    pub classes: u128,
    pub imports: u128,
    pub calls: u128,
}

#[verifier::ext_equal]
pub struct FunctionView {
    pub name: Seq<char>,
    pub signature: Seq<char>,
    pub line_start: nat,
    pub line_end: nat,
    pub doc_comment: Option<Seq<char>>,
}

#[verifier::ext_equal]
pub struct ClassView {
    pub name: Seq<char>,
    pub parent_class: Option<Seq<char>>,
    pub interfaces: Seq<Seq<char>>,
}

#[verifier::ext_equal]
pub struct ImportView {
    pub source_entity: Seq<char>,
    pub target_entity: Seq<char>,
}

#[verifier::ext_equal]
pub struct FunctionCallView {
    pub caller_name: Seq<char>,
    pub callee_name: Seq<char>,
}

#[verifier::ext_equal]
pub struct ParseResultView {
    pub path: Seq<char>,
    pub functions: Seq<FunctionView>,
    pub classes: Seq<ClassView>,
    pub imports: Seq<ImportView>,
    pub calls: Seq<FunctionCallView>,
    pub error: Option<Seq<char>>,
    pub duration_us: u64,
}

/// The text in `text`, if any.
pub open spec fn optional_text(text: Option<String>) -> Option<Seq<char>> {
    match text {
        Some(s) => Some(s@),
        None => None,
    }
}

/// The texts in `list`.
pub open spec fn texts(list: Seq<String>) -> Seq<Seq<char>> {
    list.map_values(|s: String| s@)
}

pub open spec fn function_views(list: Seq<Function>) -> Seq<FunctionView> {
    list.map_values(|f: Function| f@)
}

pub open spec fn class_views(list: Seq<Class>) -> Seq<ClassView> {
    list.map_values(|c: Class| c@)
}

pub open spec fn import_views(list: Seq<Import>) -> Seq<ImportView> {
    list.map_values(|i: Import| i@)
}

pub open spec fn call_views(list: Seq<FunctionCall>) -> Seq<FunctionCallView> {
    list.map_values(|c: FunctionCall| c@)
}

impl View for Function {
    type V = FunctionView;

    open spec fn view(&self) -> FunctionView {
        FunctionView {
            name: self.name@,
            signature: self.signature@,
            line_start: self.line_start as nat,
            line_end: self.line_end as nat,
            doc_comment: optional_text(self.doc_comment),
        }
    }
}

impl View for Class {
    type V = ClassView;

    open spec fn view(&self) -> ClassView {
        ClassView {
            name: self.name@,
            parent_class: optional_text(self.parent_class),
            interfaces: texts(self.interfaces@),
        }
    }
}

impl View for Import {
    type V = ImportView;

    open spec fn view(&self) -> ImportView {
        ImportView { source_entity: self.source_entity@, target_entity: self.target_entity@ }
    }
}

impl View for FunctionCall {
    type V = FunctionCallView;

    open spec fn view(&self) -> FunctionCallView {
        FunctionCallView { caller_name: self.caller_name@, callee_name: self.callee_name@ }
    }
}

impl View for ParseResult {
    type V = ParseResultView;

    open spec fn view(&self) -> ParseResultView {
        ParseResultView {
            path: self.path@,
            functions: function_views(self.functions@),
            classes: class_views(self.classes@),
            imports: import_views(self.imports@),
            calls: call_views(self.calls@),
            error: optional_text(self.error),
            duration_us: self.duration_us,
        }
    }
}

/// A result that holds nothing but the path and `error`.
pub open spec fn bare_result(path: Seq<char>, error: Option<Seq<char>>) -> ParseResultView {
    ParseResultView {
        path,
        functions: Seq::empty(),
        classes: Seq::empty(),
        imports: Seq::empty(),
        calls: Seq::empty(),
        error,
        duration_us: 0,
    }
}

/// `result` with a duration of `micros` microseconds.
pub open spec fn timed_result(result: ParseResultView, micros: u128) -> ParseResultView {
    ParseResultView { duration_us: micros as u64, ..result }
}

impl ParseResult {
    /// A result for `path` that holds nothing but `error`.
    pub fn bare(path: &str, error: Option<String>) -> (result: ParseResult)
        ensures
            result@ == bare_result(path@, optional_text(error)),
    {
        let result = ParseResult {
            path: path.to_string(),
            functions: Vec::new(),
            classes: Vec::new(),
            imports: Vec::new(),
            calls: Vec::new(),
            error,
            duration_us: 0,
        };
        assert(result@ =~= bare_result(path@, optional_text(error)));
        result
    }

    /// The result with the time that it took. A duration beyond 64 bits keeps
    /// its low bits.
    pub fn with_duration(self, micros: u128) -> (result: ParseResult)
        ensures
            result@ == timed_result(self@, micros),
    {
        let mut result = self;
        result.duration_us = #[verifier::truncate]
        (micros as u64);
        result
    }
}

/// How many of `results` have an error, or none.
pub open spec fn count(results: Seq<ParseResult>, failed: bool) -> nat
    decreases results.len(),
{
    if results.len() == 0 {
        0
    } else {
        count(results.drop_last(), failed) + if results.last().error is Some == failed {
            1nat
        } else {
            0nat
        }
    }
}

/// The sum of what `size` gives for each of `results`.
pub open spec fn total(results: Seq<ParseResult>, size: spec_fn(ParseResult) -> nat) -> nat
    decreases results.len(),
{
    if results.len() == 0 {
        0
    } else {
        total(results.drop_last(), size) + size(results.last())
    }
}

pub open spec fn function_count() -> spec_fn(ParseResult) -> nat {
    |r: ParseResult| r.functions@.len()
}

pub open spec fn class_count() -> spec_fn(ParseResult) -> nat {
    |r: ParseResult| r.classes@.len()
}

pub open spec fn import_count() -> spec_fn(ParseResult) -> nat {
    |r: ParseResult| r.imports@.len()
}

pub open spec fn call_count() -> spec_fn(ParseResult) -> nat {
    |r: ParseResult| r.calls@.len()
}

/// The totals over `results`: the files with and without an error, and the
/// entities of each sort.
pub fn summarize(results: &Vec<ParseResult>) -> (summary: Summary)
    ensures
        summary.ok == count(results@, false),
        summary.failed == count(results@, true),
        summary.functions == total(results@, function_count()),
        summary.classes == total(results@, class_count()),
        summary.imports == total(results@, import_count()),
        summary.calls == total(results@, call_count()),
{
    let mut summary = Summary { ok: 0, failed: 0, functions: 0, classes: 0, imports: 0, calls: 0 };
    let mut i: usize = 0;
    while i < results.len()
        invariant
            i <= results@.len(),
            summary.ok == count(results@.take(i as int), false),
            summary.failed == count(results@.take(i as int), true),
            summary.ok <= i,
            summary.failed <= i,
            summary.functions == total(results@.take(i as int), function_count()),
            summary.classes == total(results@.take(i as int), class_count()),
            summary.imports == total(results@.take(i as int), import_count()),
            summary.calls == total(results@.take(i as int), call_count()),
            summary.functions <= i * usize::MAX,
            summary.classes <= i * usize::MAX,
            summary.imports <= i * usize::MAX,
            summary.calls <= i * usize::MAX,
        decreases results@.len() - i,
    {
        let result = &results[i];
        let ghost seen = results@.take(i + 1);
        assert(seen.drop_last() =~= results@.take(i as int));
        assert(seen.last() == results@[i as int]);
        proof {
            lemma_sum_fits(i);
        }
        if result.error.is_none() {
            summary.ok = summary.ok + 1;
        } else {
            summary.failed = summary.failed + 1;
        }
        summary.functions = summary.functions + result.functions.len() as u128;
        summary.classes = summary.classes + result.classes.len() as u128;
        summary.imports = summary.imports + result.imports.len() as u128;
        summary.calls = summary.calls + result.calls.len() as u128;
        i += 1;
    }
    assert(results@.take(i as int) =~= results@);
    summary
}

proof fn lemma_sum_fits(i: usize)
    requires
        i < usize::MAX,
    ensures
        i * usize::MAX + usize::MAX == (i + 1) * usize::MAX,
        (i + 1) * usize::MAX <= u128::MAX,
{
    let most = usize::MAX as int;
    assert(i * most + most == (i + 1) * most) by (nonlinear_arith);
    assert((i + 1) * most <= most * most) by (nonlinear_arith)
        requires
            0 <= i + 1 <= most,
            0 <= most,
    ;
    assert(most * most <= 0xffff_ffff_ffff_ffff * 0xffff_ffff_ffff_ffff) by (nonlinear_arith)
        requires
            0 <= most <= 0xffff_ffff_ffff_ffff,
    ;
}

/// Every file is counted once, as parsed or as failed.
pub proof fn law_every_result_counted(results: Seq<ParseResult>)
    ensures
        count(results, false) + count(results, true) == results.len(),
    decreases results.len(),
{
    if results.len() > 0 {
        law_every_result_counted(results.drop_last());
    }
}

/// The totals over two lists of results add up to those over both.
pub proof fn law_totals_add_up(
    first: Seq<ParseResult>,
    second: Seq<ParseResult>,
    failed: bool,
    size: spec_fn(ParseResult) -> nat,
)
    ensures
        count(first + second, failed) == count(first, failed) + count(second, failed),
        total(first + second, size) == total(first, size) + total(second, size),
    decreases second.len(),
{
    if second.len() == 0 {
        assert(first + second =~= first);
    } else {
        law_totals_add_up(first, second.drop_last(), failed, size);
        assert((first + second).drop_last() =~= first + second.drop_last());
    }
}

/// A single result is counted as failed exactly where it has an error, and adds
/// what it holds to the totals.
pub proof fn law_totals_of_one_result(result: ParseResult)
    ensures
        count(seq![result], true) == if result.error is Some {
            1nat
        } else {
            0nat
        },
        count(seq![result], false) == if result.error is None {
            1nat
        } else {
            0nat
        },
        total(seq![result], function_count()) == result.functions@.len(),
        total(seq![result], class_count()) == result.classes@.len(),
        total(seq![result], import_count()) == result.imports@.len(),
        total(seq![result], call_count()) == result.calls@.len(),
{
    reveal_with_fuel(count, 2);
    reveal_with_fuel(total, 2);
    assert(seq![result].drop_last() =~= Seq::empty());
    assert(seq![result].last() == result);
}

/// A bare result holds its path and its error, and nothing else.
pub proof fn law_bare_results_hold_nothing_else(path: Seq<char>, error: Option<Seq<char>>)
    ensures
        ({
            let result = bare_result(path, error);
            &&& result.path == path
            &&& result.error == error
            &&& result.functions.len() == 0 && result.classes.len() == 0
            &&& result.imports.len() == 0 && result.calls.len() == 0
            &&& result.duration_us == 0
        }),
{
}

/// The views of what is reported hold the texts and numbers of its fields.
pub proof fn law_views_hold_the_fields(
    function: Function,
    class: Class,
    import: Import,
    call: FunctionCall,
    i: int,
)
    ensures
        function@.name == function.name@,
        function@.signature == function.signature@,
        function@.line_start == function.line_start,
        function@.line_end == function.line_end,
        match function.doc_comment {
            Some(comment) => function@.doc_comment == Some(comment@),
            None => function@.doc_comment is None,
        },
        class@.name == class.name@,
        match class.parent_class {
            Some(parent) => class@.parent_class == Some(parent@),
            None => class@.parent_class is None,
        },
        class@.interfaces.len() == class.interfaces@.len(),
        0 <= i < class.interfaces@.len() ==> class@.interfaces[i] == class.interfaces@[i]@,
        import@.source_entity == import.source_entity@,
        import@.target_entity == import.target_entity@,
        call@.caller_name == call.caller_name@,
        call@.callee_name == call.callee_name@,
{
}

/// The view of a result holds the views of all that it lists, in order.
pub proof fn law_view_of_a_result_holds_its_lists(result: ParseResult, i: int)
    ensures
        result@.path == result.path@,
        match result.error {
            Some(error) => result@.error == Some(error@),
            None => result@.error is None,
        },
        result@.duration_us == result.duration_us,
        result@.functions.len() == result.functions@.len(),
        0 <= i < result.functions@.len() ==> result@.functions[i] == result.functions@[i]@,
        result@.classes.len() == result.classes@.len(),
        0 <= i < result.classes@.len() ==> result@.classes[i] == result.classes@[i]@,
        result@.imports.len() == result.imports@.len(),
        0 <= i < result.imports@.len() ==> result@.imports[i] == result.imports@[i]@,
        result@.calls.len() == result.calls@.len(),
        0 <= i < result.calls@.len() ==> result@.calls[i] == result.calls@[i]@,
{
}

/// A duration keeps its low bits, all of them where they fit, and nothing else
/// changes.
pub proof fn law_duration_keeps_its_low_bits(result: ParseResultView, micros: u128)
    ensures
        ({
            let timed = timed_result(result, micros);
            &&& timed.duration_us == micros % 0x1_0000_0000_0000_0000
            &&& micros <= u64::MAX ==> timed.duration_us == micros
            &&& timed.path == result.path
            &&& timed.error == result.error
            &&& timed.functions == result.functions
            &&& timed.classes == result.classes
            &&& timed.imports == result.imports
            &&& timed.calls == result.calls
        }),
{
    assert(micros as u64 == micros % 0x1_0000_0000_0000_0000) by (bit_vector);
}

} // verus!
