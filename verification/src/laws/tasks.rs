//! Laws on where a search goes and what is printed in the end.

use vstd::prelude::*;

use crate::blocks::all_blocks;
use crate::cli::{help, Cli, HELP_BODY, VERSION_TEXT};
use crate::report::{count_lines, path_texts, report_text};
use crate::run::{
    exit_code_of, output_of, results_fit, something_found, task_asked, SearchResults, SearchTask,
};
use crate::search::{NO_QUERY, NO_TERMS};
use crate::standard::{shows_path, standard_output, Surroundings};
use crate::text::{joined, texts};
use crate::walk::{
    braces, choices_of, cli_globs_error, cli_types_error, first_glob_error, glob_error, globs_error,
    missing_root, plan_of, too_deep, types_error, walk_error, TypeChoice,
};

verus! {

/// The first place to search that is not there is told, and none where all are there.
pub proof fn the_first_missing_root_is_told(roots: Seq<Seq<char>>, exist: Seq<bool>)
    requires
        roots.len() == exist.len(),
    ensures
        missing_root(roots, exist) is None <==> forall|i: int|
            0 <= i < exist.len() ==> #[trigger] exist[i],
        missing_root(roots, exist) is Some ==> exists|i: int|
            0 <= i < roots.len() && missing_root(roots, exist) == Some(roots[i])
                && !#[trigger] exist[i] && forall|j: int| 0 <= j < i ==> #[trigger] exist[j],
    decreases roots.len(),
{
    if roots.len() > 0 {
        let rest = exist.drop_first();
        let others = roots.drop_first();
        the_first_missing_root_is_told(others, rest);
        assert forall|i: int| 0 <= i < rest.len() implies #[trigger] rest[i] == exist[i + 1] by {}
        if exist[0] {
            if missing_root(roots, exist) is Some {
                let i = choose|i: int|
                    0 <= i < others.len() && missing_root(others, rest) == Some(others[i])
                        && !#[trigger] rest[i] && forall|j: int| 0 <= j < i ==> #[trigger] rest[j];
                assert(!exist[i + 1]);
                assert(others[i] == roots[i + 1]);
                assert forall|j: int| 0 <= j < i + 1 implies #[trigger] exist[j] by {
                    if j > 0 {
                        assert(rest[j - 1]);
                    }
                }
            } else {
                assert forall|i: int| 0 <= i < exist.len() implies #[trigger] exist[i] by {
                    if i > 0 {
                        assert(rest[i - 1]);
                    }
                }
            }
        }
        if forall|i: int| 0 <= i < exist.len() ==> #[trigger] exist[i] {
            assert forall|i: int| 0 <= i < rest.len() implies #[trigger] rest[i] by {
                assert(exist[i + 1]);
            }
        }
    }
}

/// The error of the first glob that cannot be read is told, and none where all can be read.
pub proof fn the_first_bad_glob_is_told(globs: Seq<Seq<char>>, glob: Seq<char>)
    ensures
        first_glob_error(globs) is None <==> forall|i: int|
            0 <= i < globs.len() ==> !too_deep(#[trigger] globs[i]) && glob_error(globs[i]) is None,
        !too_deep(glob) && glob_error(glob) is None ==> first_glob_error(seq![glob] + globs)
            == first_glob_error(globs),
        !too_deep(glob) && glob_error(glob) is Some ==> first_glob_error(seq![glob] + globs)
            == glob_error(glob),
        too_deep(glob) ==> first_glob_error(seq![glob] + globs) is Some,
    decreases globs.len(),
{
    let more = seq![glob] + globs;
    assert(more.drop_first() == globs);
    assert(more[0] == glob);
    if globs.len() > 0 {
        let rest = globs.drop_first();
        the_first_bad_glob_is_told(rest, glob);
        assert forall|i: int| 0 <= i < rest.len() implies #[trigger] rest[i] == globs[i + 1] by {}
        if first_glob_error(globs) is None {
            assert forall|i: int| 0 <= i < globs.len() implies !too_deep(#[trigger] globs[i])
                && glob_error(globs[i]) is None by {
                if i > 0 {
                    assert(globs[i] == rest[i - 1]);
                }
            }
        }
        if forall|i: int|
            0 <= i < globs.len() ==> !too_deep(#[trigger] globs[i]) && glob_error(globs[i]) is None {
            assert forall|i: int| 0 <= i < rest.len() implies !too_deep(#[trigger] rest[i])
                && glob_error(rest[i]) is None by {
                assert(rest[i] == globs[i + 1]);
            }
        }
    }
}

/// A glob lies too deep where it opens more than five hundred braces, unless it is a comment.
pub proof fn deep_globs_open_many_braces(glob: Seq<char>)
    ensures
        braces(glob) == glob.filter(|character: char| character == '{').len(),
        too_deep(glob) <==> (glob.len() == 0 || glob[0] != '#') && glob.filter(
            |character: char| character == '{',
        ).len() > 500,
    decreases glob.len(),
{
    lemma_braces(glob);
    reveal_strlit("#");
    let sign = "#"@;
    if glob.len() > 0 && glob[0] == '#' {
        assert(glob.subrange(0, 1) == sign);
    }
    if sign.is_prefix_of(glob) {
        assert(glob.subrange(0, 1)[0] == sign[0]);
    }
}

/// The braces of a text are those of its characters.
proof fn lemma_braces(text: Seq<char>)
    ensures
        braces(text) == text.filter(|character: char| character == '{').len(),
    decreases text.len(),
{
    reveal(Seq::filter);
    if text.len() > 0 {
        lemma_braces(text.drop_last());
    }
}

/// The types that are asked for come first, to be searched, and those that are not wanted behind
/// them, to be left out.
pub proof fn types_are_chosen_in_order(names: Seq<Seq<char>>, not_names: Seq<Seq<char>>)
    ensures
        choices_of(names, not_names).len() == names.len() + not_names.len(),
        forall|i: int|
            0 <= i < names.len() ==> #[trigger] choices_of(names, not_names)[i] == (TypeChoice {
                name: names[i],
                search: true,
            }),
        forall|i: int|
            names.len() <= i < names.len() + not_names.len() ==> #[trigger] choices_of(
                names,
                not_names,
            )[i] == (TypeChoice { name: not_names[i - names.len()], search: false }),
{
}

/// There is no walk where a place to search is missing, where a glob cannot be read or where a file
/// type is not known, and the first of these that holds is told.
pub proof fn walks_fail_for_a_reason(cli: Cli, exist: Seq<bool>)
    requires
        exist.len() == cli.roots@.len(),
    ensures
        missing_root(texts(cli.roots@), exist) matches Some(root) ==> walk_error(cli, exist)
            == Some("search root does not exist: "@ + root),
        missing_root(texts(cli.roots@), exist) is None && cli_globs_error(cli) is Some
            ==> walk_error(cli, exist) == cli_globs_error(cli),
        missing_root(texts(cli.roots@), exist) is None && cli_globs_error(cli) is None
            ==> walk_error(cli, exist) == cli_types_error(cli),
        cli.globs@.len() == 0 ==> cli_globs_error(cli) is None,
        cli.globs@.len() > 0 && first_glob_error(texts(cli.globs@)) is Some ==> cli_globs_error(cli)
            == first_glob_error(texts(cli.globs@)),
        cli.globs@.len() > 0 && first_glob_error(texts(cli.globs@)) is None ==> cli_globs_error(cli)
            == globs_error(texts(cli.globs@)),
        cli.type_names@.len() == 0 && cli.type_not_names@.len() == 0 ==> cli_types_error(cli)
            is None,
        cli.type_names@.len() + cli.type_not_names@.len() > 0 ==> cli_types_error(cli)
            == types_error(choices_of(texts(cli.type_names@), texts(cli.type_not_names@))),
{
}

/// A walk goes through the places to search, in the order of paths; links, hidden files, ignore
/// files, globs and file types are heeded as the command line asks for.
pub proof fn walks_heed_the_command_line(cli: Cli)
    ensures
        plan_of(cli).roots.len() == cli.roots@.len(),
        forall|i: int|
            0 <= i < cli.roots@.len() ==> #[trigger] plan_of(cli).roots[i] == cli.roots@[i]@,
        plan_of(cli).follow_links <==> cli.follow_links,
        plan_of(cli).skip_hidden <==> !cli.hidden,
        plan_of(cli).heed_ignore_files <==> !cli.no_ignore,
        !plan_of(cli).require_git,
        plan_of(cli).in_path_order,
        cli.globs@.len() == 0 <==> plan_of(cli).globs is None,
        cli.globs@.len() > 0 ==> plan_of(cli).globs->0.len() == cli.globs@.len() && forall|i: int|
            0 <= i < cli.globs@.len() ==> #[trigger] plan_of(cli).globs->0[i] == cli.globs@[i]@,
        cli.type_names@.len() == 0 && cli.type_not_names@.len() == 0 <==> plan_of(cli).types
            is None,
        plan_of(cli).types is Some ==> plan_of(cli).types->0 == choices_of(
            texts(cli.type_names@),
            texts(cli.type_not_names@),
        ),
{
}

/// The help begins with the name and the version of the program and with what it is for.
pub proof fn the_help_begins_with_the_version()
    ensures
        VERSION_TEXT@ == "rgrank 0.1.0"@,
        help() == "rgrank 0.1.0"@ + ": "@ + "ripgrep-style search with file-level ranking"@
            + "\n\n"@ + HELP_BODY@,
        NO_QUERY@ == "query is required unless --files is set"@,
        NO_TERMS@ == "query must contain at least one searchable term"@,
{
}

/// Each way of output has a task of its own; where files are asked for, they are listed.
pub proof fn tasks_follow_from_the_command_line(cli: Cli, results: SearchResults)
    ensures
        cli.files_mode ==> task_asked(cli) == SearchTask::ListFiles,
        !cli.files_mode ==> (task_asked(cli) == SearchTask::Standard <==> cli.output_mode
            is Standard) && (task_asked(cli) == SearchTask::Ranked <==> cli.output_mode is Ranked)
            && (task_asked(cli) == SearchTask::FilesWithMatches <==> cli.output_mode
            is FilesWithMatches) && (task_asked(cli) == SearchTask::FilesWithoutMatch
            <==> cli.output_mode is FilesWithoutMatch) && (task_asked(cli) == SearchTask::Count
            <==> cli.output_mode is Count) && (task_asked(cli) == SearchTask::Json
            <==> cli.output_mode is Json) && task_asked(cli) != SearchTask::ListFiles,
        results_fit(task_asked(cli), results) && cli.files_mode ==> results is Listed,
        results_fit(task_asked(cli), results) && !cli.files_mode ==> {
            &&& cli.output_mode is Standard <==> results is Standard
            &&& cli.output_mode is Ranked <==> results is Ranked
            &&& cli.output_mode is FilesWithMatches || cli.output_mode is FilesWithoutMatch
                <==> results is Files
            &&& cli.output_mode is Count <==> results is Counts
            &&& cli.output_mode is Json <==> results is Json
        },
{
}

/// What is printed is what was found: a path on each line, the lines that match, the report, a count
/// on each line, or the JSON output. The exit code is zero exactly where something was found or
/// files were listed, and one else.
pub proof fn what_is_found_is_printed(cli: Cli, around: Surroundings, results: SearchResults)
    ensures
        results matches SearchResults::Listed(files) ==> output_of(cli, around, results) == joined(
            path_texts(files@),
            seq!['\n'],
        ) && exit_code_of(something_found(results)) == 0,
        results matches SearchResults::Files(files) ==> output_of(cli, around, results) == joined(
            path_texts(files@),
            seq!['\n'],
        ) && (exit_code_of(something_found(results)) == 0 <==> files@.len() > 0),
        results matches SearchResults::Counts(counts) ==> output_of(cli, around, results) == joined(
            count_lines(counts@, !(cli.roots@.len() == 1 && around.first_root_is_file)),
            seq!['\n'],
        ) && (exit_code_of(something_found(results)) == 0 <==> counts@.len() > 0),
        results matches SearchResults::Ranked(report) ==> output_of(cli, around, results)
            == report_text(report) && (exit_code_of(something_found(results)) == 0
            <==> report.candidate_lines > 0),
        results matches SearchResults::Json(result) ==> output_of(cli, around, results)
            == result.output@ && (exit_code_of(something_found(results)) == 0
            <==> result.had_match),
        results matches SearchResults::Standard(events, file_lines) ==> output_of(
            cli,
            around,
            results,
        ) == standard_output(
            all_blocks(events@, cli.before_context, cli.after_context, file_lines@),
            cli,
            around,
        ) && (exit_code_of(something_found(results)) == 0 <==> events@.len() > 0),
        exit_code_of(something_found(results)) == 0 || exit_code_of(something_found(results)) == 1,
{
    reveal_strlit("\n");
    assert("\n"@ == seq!['\n']);
    assert(shows_path(cli, around.first_root_is_file) == !(cli.roots@.len() == 1
        && around.first_root_is_file));
}

} // verus!
