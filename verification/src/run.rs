//! The program from its arguments to its output and its exit code.

use vstd::prelude::*;

use crate::blocks::{all_blocks, path_runs};
use crate::candidate::FilePath;
use crate::cli::{
    help, help_text, parse_args_from, parsed, Cli, ParseOutcome, ParseOutcomeView,
    SearchOutputMode, VERSION_TEXT,
};
use crate::json::JsonSearchResult;
use crate::report::{
    count_lines, path_texts, render_count_list, render_file_list, render_report, report_text,
    CountEntry, SearchReport,
};
use crate::sinks::MatchEvent;
use crate::standard::{
    events_fit, render_standard_output, shows_path, standard_output, Surroundings,
};
use crate::text::{joined, texts};

verus! {

/// What is printed, and the exit code.
#[derive(Debug, Clone)]
pub struct RunOutcome {
    /// What is printed.
    pub output: String,
    /// The exit code.
    pub exit_code: i32,
}

/// What the program does next.
#[derive(Debug, Clone)]
pub enum RunStep {
    /// It prints something and is done.
    Done(RunOutcome),
    /// It searches.
    Search(Cli),
}

/// What the program does with its arguments: it prints the help or the version, or it searches, or
/// it says what is wrong with them.
pub fn run(arguments: Vec<String>) -> (result: Result<RunStep, String>)
    ensures
        match (result, parsed(texts(arguments@))) {
            (Ok(RunStep::Search(cli)), Ok(ParseOutcomeView::Cli(view))) => cli@ == view,
            (Ok(RunStep::Done(outcome)), Ok(ParseOutcomeView::Help)) => outcome.output@ == help()
                && outcome.exit_code == 0,
            (Ok(RunStep::Done(outcome)), Ok(ParseOutcomeView::Version)) => outcome.output@
                == VERSION_TEXT@ && outcome.exit_code == 0,
            (Err(message), Err(named)) => message@ == named,
            _ => false,
        },
{
    match parse_args_from(arguments) {
        Ok(ParseOutcome::Cli(cli)) => Ok(RunStep::Search(cli)),
        Ok(ParseOutcome::Help) => Ok(
            RunStep::Done(RunOutcome { output: help_text(), exit_code: 0 }),
        ),
        Ok(ParseOutcome::Version) => Ok(
            RunStep::Done(RunOutcome { output: VERSION_TEXT.to_owned(), exit_code: 0 }),
        ),
        Err(message) => Err(message),
    }
}

/// What is asked for.
#[derive(Debug, Clone, Copy, PartialEq, Eq, Structural)]
pub enum SearchTask {
    ListFiles,
    Standard,
    Ranked,
    FilesWithMatches,
    FilesWithoutMatch,
    Count,
    Json,
}

/// What a command line asks for.
pub open spec fn task_asked(cli: Cli) -> SearchTask {
    if cli.files_mode {
        SearchTask::ListFiles
    } else {
        match cli.output_mode {
            SearchOutputMode::Standard => SearchTask::Standard,
            SearchOutputMode::Ranked => SearchTask::Ranked,
            SearchOutputMode::FilesWithMatches => SearchTask::FilesWithMatches,
            SearchOutputMode::FilesWithoutMatch => SearchTask::FilesWithoutMatch,
            SearchOutputMode::Count => SearchTask::Count,
            SearchOutputMode::Json => SearchTask::Json,
        }
    }
}

/// What a command line asks for.
pub fn search_task(cli: &Cli) -> (task: SearchTask)
    ensures
        task == task_asked(*cli),
{
    if cli.files_mode {
        return SearchTask::ListFiles;
    }
    match cli.output_mode {
        SearchOutputMode::Standard => SearchTask::Standard,
        SearchOutputMode::Ranked => SearchTask::Ranked,
        SearchOutputMode::FilesWithMatches => SearchTask::FilesWithMatches,
        SearchOutputMode::FilesWithoutMatch => SearchTask::FilesWithoutMatch,
        SearchOutputMode::Count => SearchTask::Count,
        SearchOutputMode::Json => SearchTask::Json,
    }
}

/// What a search came to.
#[derive(Debug, Clone)]
pub enum SearchResults {
    /// The files that were listed.
    Listed(Vec<FilePath>),
    /// The lines that match, and for each run of them with one path the lines of the file, where
    /// they are at hand.
    Standard(Vec<MatchEvent>, Vec<Option<Vec<String>>>),
    /// The ranked files.
    Ranked(SearchReport),
    /// The files that were looked for.
    Files(Vec<FilePath>),
    /// The counts of the files with a match.
    Counts(Vec<CountEntry>),
    /// The JSON output.
    Json(JsonSearchResult),
}

/// Whether results are of the kind that is asked for.
pub open spec fn results_fit(task: SearchTask, results: SearchResults) -> bool {
    match task {
        SearchTask::ListFiles => results is Listed,
        SearchTask::Standard => results is Standard,
        SearchTask::Ranked => results is Ranked,
        SearchTask::FilesWithMatches => results is Files,
        SearchTask::FilesWithoutMatch => results is Files,
        SearchTask::Count => results is Counts,
        SearchTask::Json => results is Json,
    }
}

/// Whether results can be printed.
pub open spec fn printable(results: SearchResults) -> bool {
    match results {
        SearchResults::Standard(events, file_lines) => events_fit(events@) && file_lines@.len()
            == path_runs(events@).len(),
        _ => true,
    }
}

/// What is printed of results.
pub open spec fn output_of(cli: Cli, around: Surroundings, results: SearchResults) -> Seq<char> {
    match results {
        SearchResults::Listed(files) => joined(path_texts(files@), "\n"@),
        SearchResults::Standard(events, file_lines) => standard_output(
            all_blocks(events@, cli.before_context, cli.after_context, file_lines@),
            cli,
            around,
        ),
        SearchResults::Ranked(report) => report_text(report),
        SearchResults::Files(files) => joined(path_texts(files@), "\n"@),
        SearchResults::Counts(counts) => joined(
            count_lines(counts@, shows_path(cli, around.first_root_is_file)),
            "\n"@,
        ),
        SearchResults::Json(result) => result.output@,
    }
}

/// Whether something was found. A list of files always counts as found.
pub open spec fn something_found(results: SearchResults) -> bool {
    match results {
        SearchResults::Listed(files) => true,
        SearchResults::Standard(events, file_lines) => events@.len() > 0,
        SearchResults::Ranked(report) => report.candidate_lines > 0,
        SearchResults::Files(files) => files@.len() > 0,
        SearchResults::Counts(counts) => counts@.len() > 0,
        SearchResults::Json(result) => result.had_match,
    }
}

/// The exit code: zero where something was found, and one where nothing was.
pub open spec fn exit_code_of(found: bool) -> i32 {
    if found {
        0
    } else {
        1
    }
}

/// Whether results hold nothing.
pub open spec fn nothing_in(results: SearchResults) -> bool {
    match results {
        SearchResults::Listed(files) => files@.len() == 0,
        SearchResults::Standard(events, file_lines) => events@.len() == 0,
        SearchResults::Ranked(report) => report.candidate_lines == 0,
        SearchResults::Files(files) => files@.len() == 0,
        SearchResults::Counts(counts) => counts@.len() == 0,
        SearchResults::Json(result) => !result.had_match,
    }
}

/// A list of files is printed one path on each line and always with exit code zero; a search has
/// exit code one exactly where it found nothing, and else zero.
pub proof fn exit_codes_tell_what_was_found(
    cli: Cli,
    around: Surroundings,
    results: SearchResults,
)
    requires
        results_fit(task_asked(cli), results),
    ensures
        cli.files_mode ==> results is Listed && output_of(cli, around, results) == joined(
            path_texts(results->Listed_0@),
            "\n"@,
        ),
        exit_code_of(something_found(results)) == if !cli.files_mode && nothing_in(results) {
            1i32
        } else {
            0i32
        },
{
}

/// What is printed for the results of a search, and the exit code.
fn outcome_of(cli: &Cli, around: &Surroundings, results: &SearchResults) -> (outcome: RunOutcome)
    requires
        printable(*results),
    ensures
        outcome.output@ == output_of(*cli, *around, *results),
        outcome.exit_code == exit_code_of(something_found(*results)),
{
    let (output, found) = match results {
        SearchResults::Listed(files) => (render_file_list(files), true),
        SearchResults::Standard(events, file_lines) => (
            render_standard_output(events, cli, around, file_lines),
            events.len() > 0,
        ),
        SearchResults::Ranked(report) => (render_report(report), report.candidate_lines > 0),
        SearchResults::Files(files) => (render_file_list(files), files.len() > 0),
        SearchResults::Counts(counts) => (
            render_count_list(counts, cli, around.first_root_is_file),
            counts.len() > 0,
        ),
        SearchResults::Json(result) => (result.output.clone(), result.had_match),
    };
    RunOutcome {
        output,
        exit_code: if found {
            0
        } else {
            1
        },
    }
}

/// What is printed for the results of a search, and the exit code; the error of a search that failed
/// is handed on as it is.
pub fn execute_cli(
    cli: &Cli,
    around: &Surroundings,
    results: Result<SearchResults, String>,
) -> (outcome: Result<RunOutcome, String>)
    requires
        results is Ok ==> results_fit(task_asked(*cli), results->Ok_0) && printable(results->Ok_0),
    ensures
        match (results, outcome) {
            (Ok(results), Ok(outcome)) => {
                &&& outcome.output@ == output_of(*cli, *around, results)
                &&& outcome.exit_code == exit_code_of(something_found(results))
            },
            (Err(error), Err(message)) => message == error,
            _ => false,
        },
{
    match results {
        Ok(results) => Ok(outcome_of(cli, around, &results)),
        Err(error) => Err(error),
    }
}

} // verus!
