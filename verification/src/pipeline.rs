//! The way of one file through the engine, between the reading of its path and
//! the parsing of its text.
use vstd::prelude::*;

use crate::grammar::{Grammar, GrammarView, Grammars};
use crate::language::{detect_language, LangId};
use crate::parse::parse_file;
use crate::report::{ParseResult, ParseResultView};
use crate::text::{chars_of, text_of, text_trim};
use crate::vue::extract_vue_script;
use crate::{engine, grammar, language, parse, report, text, vue};

verus! {

/// What is to be done with a path: the result is known, or the file is read
/// and taken as the language.
#[derive(Debug, PartialEq, Eq)]
pub enum Plan {
    Report(ParseResult),
    Read(LangId),
}

pub enum PlanView {
    Report(ParseResultView),
    Read(LangId),
}

impl View for Plan {
    type V = PlanView;

    open spec fn view(&self) -> PlanView {
        match self {
            Plan::Report(result) => PlanView::Report(result@),
            Plan::Read(id) => PlanView::Read(*id),
        }
    }
}

/// What is to be done with a file that was read: the result is known, or the
/// text is parsed with the grammar.
pub enum Job<'g> {
    Report(ParseResult),
    Parse { source: String, grammar: &'g Grammar },
}

pub enum JobView {
    Report(ParseResultView),
    Parse { source: Seq<char>, grammar: GrammarView },
}

impl<'g> View for Job<'g> {
    type V = JobView;

    open spec fn view(&self) -> JobView {
        match self {
            Job::Report(result) => JobView::Report(result@),
            Job::Parse { source, grammar } => JobView::Parse { source: source@, grammar: grammar@ },
        }
    }
}

/// The path that a line of the input gives, if it is not blank.
pub open spec fn line_path(line: Seq<char>) -> Option<Seq<char>> {
    if text::trim(line).len() == 0 {
        None
    } else {
        Some(text::trim(line))
    }
}

/// What is to be done with a path. Only files of known languages are read.
pub open spec fn path_plan(path: Seq<char>) -> PlanView {
    match language::path_language(path) {
        Some(id) => PlanView::Read(id),
        None => PlanView::Report(report::bare_result(path, Some("unsupported language"@))),
    }
}

/// The text to parse of a file, and its language: of a Vue component its
/// script, if it has one, and of any other file all of it.
pub open spec fn parsed_part(id: LangId, source: Seq<char>) -> Option<(Seq<char>, LangId)> {
    if id == LangId::Vue {
        vue::script_block(source)
    } else {
        Some((source, id))
    }
}

/// What is to be done with a file in the language, where reading it gave the
/// text or the message.
pub open spec fn file_job(
    path: Seq<char>,
    id: LangId,
    read: Result<Seq<char>, Seq<char>>,
    grammars: Map<LangId, GrammarView>,
) -> JobView {
    match read {
        Err(message) => JobView::Report(
            report::bare_result(path, Some("read error: "@ + message)),
        ),
        Ok(source) => match parsed_part(id, source) {
            None => JobView::Report(report::bare_result(path, None)),
            Some((part, part_id)) => if grammars.contains_key(part_id) {
                JobView::Parse { source: part, grammar: grammars[part_id] }
            } else {
                JobView::Report(
                    report::bare_result(
                        path,
                        Some("grammar not loaded for "@ + part_id.label_text()),
                    ),
                )
            },
        },
    }
}

/// The text or the message that reading a file gave.
pub open spec fn read_outcome(read: Result<String, String>) -> Result<Seq<char>, Seq<char>> {
    match read {
        Ok(source) => Ok(source@),
        Err(message) => Err(message@),
    }
}

/// What is reported of a file in the language, where reading it gave the text
/// or the message.
pub open spec fn file_report(
    path: Seq<char>,
    id: LangId,
    read: Result<Seq<char>, Seq<char>>,
    grammars: Map<LangId, GrammarView>,
) -> ParseResultView {
    job_report(path, file_job(path, id, read, grammars))
}

/// What is reported of a file once its job is done.
pub open spec fn job_report(path: Seq<char>, job: JobView) -> ParseResultView {
    match job {
        JobView::Report(result) => result,
        JobView::Parse { source, grammar } => parse::file_result(path, source, grammar),
    }
}

/// The path that a line of the input gives: the line without the white space
/// around it. A blank line gives none.
pub fn path_of_line(line: &str) -> (path: Option<String>)
    ensures
        report::optional_text(path) == line_path(line@),
{
    let chars = chars_of(line);
    let trimmed = text_trim(chars.as_slice());
    if trimmed.len() == 0 {
        None
    } else {
        Some(text_of(trimmed))
    }
}

/// Decides by the path alone whether the file is to be read.
pub fn plan_file(path: &str) -> (plan: Plan)
    ensures
        plan@ == path_plan(path@),
{
    match detect_language(path) {
        Some(id) => Plan::Read(id),
        None => Plan::Report(ParseResult::bare(path, Some("unsupported language".to_string()))),
    }
}

/// `head` followed by `tail`.
fn joined(head: &str, tail: &str) -> (whole: String)
    ensures
        whole@ == head@ + tail@,
{
    let mut whole = head.to_string();
    whole.append(tail);
    whole
}

/// Decides what to do with a file that was read, or could not be read.
pub fn prepare_file<'g>(
    path: &str,
    id: LangId,
    read: Result<String, String>,
    grammars: &'g Grammars,
) -> (job: Job<'g>)
    ensures
        job@ == file_job(path@, id, read_outcome(read), grammars@),
{
    let source = match read {
        Ok(source) => source,
        Err(message) => {
            let error = joined("read error: ", message.as_str());
            return Job::Report(ParseResult::bare(path, Some(error)));
        },
    };
    let (part, part_id) = if id == LangId::Vue {
        match extract_vue_script(source.as_str()) {
            Some((script, script_id)) => (script, script_id),
            None => return Job::Report(ParseResult::bare(path, None)),
        }
    } else {
        (source, id)
    };
    match grammars.get(part_id) {
        Some(grammar) => Job::Parse { source: part, grammar },
        None => {
            let error = joined("grammar not loaded for ", part_id.label());
            Job::Report(ParseResult::bare(path, Some(error)))
        },
    }
}

/// Does what is to be done with a file that was read, or could not be read.
pub fn finish_file(path: &str, job: Job<'_>) -> (result: ParseResult)
    ensures
        result@ == job_report(path@, job@),
{
    match job {
        Job::Report(result) => result,
        Job::Parse { source, grammar } => parse_file(path, source.as_str(), grammar),
    }
}

/// Reports what a file holds that was read, or why nothing is known of it.
pub fn report_file(
    path: &str,
    id: LangId,
    read: Result<String, String>,
    grammars: &Grammars,
) -> (result: ParseResult)
    ensures
        result@ == file_report(path@, id, read_outcome(read), grammars@),
{
    finish_file(path, prepare_file(path, id, read, grammars))
}

/// A path taken from the input is not empty and has no white space around it;
/// taken again, it stays the same.
pub proof fn law_paths_are_trimmed(line: Seq<char>)
    ensures
        line_path(line) matches Some(path) ==> path.len() > 0 && !text::white_space(path.first())
            && !text::white_space(path.last()) && line_path(path) == Some(path),
{
    text::lemma_trim(line, text::CharSet::Blank);
}

/// Once all grammars are loaded, a file of a known language that can be read
/// is either parsed or, if it is a Vue component without a script, reported
/// without an error.
pub proof fn law_no_grammar_is_missing(path: Seq<char>, source: Seq<char>)
    requires
        language::path_language(path) is Some,
    ensures
        ({
            let id = language::path_language(path)->0;
            match file_job(path, id, Ok(source), grammar::known_grammars()) {
                JobView::Parse { source: part, grammar } => parsed_part(id, source) == Some(
                    (part, grammar.language),
                ) && grammar::known_grammar(grammar.language) == Some(grammar),
                JobView::Report(result) => id == LangId::Vue && vue::script_block(source) is None
                    && result == report::bare_result(path, None),
            }
        }),
{
}

/// What is reported of a file is for its path; once all grammars are loaded, it
/// has an error exactly where the file could not be read, or where there is
/// something in it to parse that cannot be parsed at all.
pub proof fn law_errors_of_known_files(
    path: Seq<char>,
    id: LangId,
    read: Result<Seq<char>, Seq<char>>,
)
    ensures
        ({
            let result = file_report(path, id, read, grammar::known_grammars());
            &&& result.path == path
            &&& result.error is Some <==> match read {
                Ok(source) => parsed_part(id, source) matches Some((part, part_id))
                    && engine::parse_outcome(part_id, grammar::parsed_text(part_id, part)) is None,
                Err(_) => true,
            }
        }),
{
}

/// What is reported of a file that is not parsed holds the path and at most an
/// error.
pub proof fn law_unparsed_files_hold_nothing(
    path: Seq<char>,
    id: LangId,
    read: Result<Seq<char>, Seq<char>>,
    grammars: Map<LangId, GrammarView>,
)
    ensures
        path_plan(path) matches PlanView::Report(result) ==> result == report::bare_result(
            path,
            result.error,
        ) && result.error is Some,
        file_job(path, id, read, grammars) matches JobView::Report(result) ==> result
            == report::bare_result(path, result.error),
        read is Err ==> file_job(path, id, read, grammars) is Report,
{
}

/// A line that is not blank gives all of its text but for the white space around
/// it; a blank line gives no path.
pub proof fn law_line_gives_its_path(space: Seq<char>, path: Seq<char>, blank: Seq<char>)
    requires
        forall|i: int| 0 <= i < space.len() ==> text::white_space(#[trigger] space[i]),
        path.len() > 0 ==> !text::white_space(path.first()) && !text::white_space(path.last()),
        forall|i: int| 0 <= i < blank.len() ==> text::white_space(#[trigger] blank[i]),
    ensures
        path.len() > 0 ==> line_path(space + path + blank) == Some(path),
        path.len() == 0 ==> line_path(space + path + blank) is None,
{
    text::lemma_trim_around(space, path, blank);
}

/// A file is read exactly where its path has a language, and is then taken as that
/// language; else it is reported as not supported.
pub proof fn law_files_of_known_languages_are_read(path: Seq<char>, id: LangId)
    ensures
        path_plan(path) == PlanView::Read(id) <==> language::path_language(path) == Some(id),
        language::path_language(path) is None ==> path_plan(path) == PlanView::Report(
            report::bare_result(path, Some("unsupported language"@)),
        ),
{
}

/// A file that was read is parsed as a whole, or by its script where it is a Vue
/// component, with the grammar of the language.
pub proof fn law_read_files_are_parsed(
    path: Seq<char>,
    id: LangId,
    source: Seq<char>,
    grammars: Map<LangId, GrammarView>,
)
    ensures
        id != LangId::Vue && grammars.contains_key(id) ==> file_job(
            path,
            id,
            Ok(source),
            grammars,
        ) == (JobView::Parse { source, grammar: grammars[id] }),
        vue::script_block(source) matches Some((script, script_id)) ==> grammars.contains_key(
            script_id,
        ) ==> file_job(path, LangId::Vue, Ok(source), grammars) == (JobView::Parse {
            source: script,
            grammar: grammars[script_id],
        }),
        vue::script_block(source) is None ==> file_job(path, LangId::Vue, Ok(source), grammars)
            == JobView::Report(report::bare_result(path, None)),
{
}

/// Why a file is not parsed is said in its error: that it could not be read, with
/// the message, or that there is no grammar, with the language.
pub proof fn law_errors_say_what_is_wrong(
    path: Seq<char>,
    id: LangId,
    source: Seq<char>,
    message: Seq<char>,
    grammars: Map<LangId, GrammarView>,
)
    ensures
        file_job(path, id, Err(message), grammars) == JobView::Report(
            report::bare_result(path, Some("read error: "@ + message)),
        ),
        id != LangId::Vue && !grammars.contains_key(id) ==> file_job(
            path,
            id,
            Ok(source),
            grammars,
        ) == JobView::Report(
            report::bare_result(path, Some("grammar not loaded for "@ + id.label_text())),
        ),
        vue::script_block(source) matches Some((_, script_id)) ==> !grammars.contains_key(
            script_id,
        ) ==> file_job(path, LangId::Vue, Ok(source), grammars) == JobView::Report(
            report::bare_result(path, Some("grammar not loaded for "@ + script_id.label_text())),
        ),
{
}

/// What is reported of a file is the result that is known, or else that of the
/// parsed text.
pub proof fn law_report_is_that_of_the_job(
    path: Seq<char>,
    id: LangId,
    read: Result<Seq<char>, Seq<char>>,
    grammars: Map<LangId, GrammarView>,
)
    ensures
        match file_job(path, id, read, grammars) {
            JobView::Report(result) => file_report(path, id, read, grammars) == result,
            JobView::Parse { source, grammar } => file_report(path, id, read, grammars)
                == parse::file_result(path, source, grammar),
        },
{
}

/// The views of plans and jobs hold what is reported, read or parsed.
pub proof fn law_views_hold_plans_and_jobs(plan: Plan, job: Job<'_>)
    ensures
        match plan {
            Plan::Report(result) => plan@ == PlanView::Report(result@),
            Plan::Read(id) => plan@ == PlanView::Read(id),
        },
        match job {
            Job::Report(result) => job@ == JobView::Report(result@),
            Job::Parse { source, grammar } => job@ == (JobView::Parse {
                source: source@,
                grammar: grammar@,
            }),
        },
{
}

} // verus!
