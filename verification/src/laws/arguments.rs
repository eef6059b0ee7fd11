//! Laws on the command line.

use vstd::prelude::*;

use crate::cli::{
    argument_kind, defaults, help, long_inline, long_prefix, parsed,
    parsed_from, short_prefix, switch_written, value_flag_written, with_positionals,
    with_switch, with_value, Argument, CaseMode, CliView, ColorMode, MatchMode, ParseOutcomeView,
    SearchOutputMode, Switch, ValueFlag,
};
use crate::text::{blank, size_value};

verus! {

/// What is asked for where no flag says otherwise: a regular expression with smart case, standard
/// output without context, and no more than five ranked files of three passages each, out of five
/// hundred lines.
pub proof fn nothing_is_asked_for_by_itself()
    ensures
        defaults() == (CliView {
            query: None,
            roots: Seq::empty(),
            files_mode: false,
            debug: false,
            match_mode: MatchMode::Regex,
            case_mode: CaseMode::Smart,
            output_mode: SearchOutputMode::Standard,
            show_all: false,
            top_k: 5,
            max_candidate_lines: 500,
            before_context: 0,
            after_context: 0,
            context_explicit: false,
            max_snippets: 3,
            globs: Seq::empty(),
            type_names: Seq::empty(),
            type_not_names: Seq::empty(),
            line_numbers: false,
            show_column: false,
            heading: false,
            color_mode: ColorMode::Auto,
            word_regexp: false,
            line_regexp: false,
            hidden: false,
            no_ignore: false,
            follow_links: false,
        }),
{
}

/// Each flag without a value changes one thing that is asked for, and nothing else.
pub proof fn a_switch_changes_one_thing(cli: CliView)
    ensures
        with_switch(cli, Switch::Files) == (CliView { files_mode: true, ..cli }),
        with_switch(cli, Switch::Debug) == (CliView { debug: true, ..cli }),
        with_switch(cli, Switch::FixedStrings) == (CliView { match_mode: MatchMode::FixedStrings, ..cli }),
        with_switch(cli, Switch::IgnoreCase) == (CliView { case_mode: CaseMode::Insensitive, ..cli }),
        with_switch(cli, Switch::CaseSensitive) == (CliView { case_mode: CaseMode::Sensitive, ..cli }),
        with_switch(cli, Switch::SmartCase) == (CliView { case_mode: CaseMode::Smart, ..cli }),
        with_switch(cli, Switch::LineNumbers) == (CliView { line_numbers: true, ..cli }),
        with_switch(cli, Switch::Column) == (CliView { show_column: true, ..cli }),
        with_switch(cli, Switch::Heading) == (CliView { heading: true, ..cli }),
        with_switch(cli, Switch::NoHeading) == (CliView { heading: false, ..cli }),
        with_switch(cli, Switch::Json) == (CliView { output_mode: SearchOutputMode::Json, ..cli }),
        with_switch(cli, Switch::Ranked) == (CliView { output_mode: SearchOutputMode::Ranked, ..cli }),
        with_switch(cli, Switch::All) == (CliView { show_all: true, ..cli }),
        with_switch(cli, Switch::WordRegexp) == (CliView { word_regexp: true, ..cli }),
        with_switch(cli, Switch::LineRegexp) == (CliView { line_regexp: true, ..cli }),
        with_switch(cli, Switch::FilesWithMatches) == (CliView { output_mode: SearchOutputMode::FilesWithMatches, ..cli }),
        with_switch(cli, Switch::FilesWithoutMatch) == (CliView { output_mode: SearchOutputMode::FilesWithoutMatch, ..cli }),
        with_switch(cli, Switch::Count) == (CliView { output_mode: SearchOutputMode::Count, ..cli }),
        with_switch(cli, Switch::Hidden) == (CliView { hidden: true, ..cli }),
        with_switch(cli, Switch::NoIgnore) == (CliView { no_ignore: true, ..cli }),
        with_switch(cli, Switch::Follow) == (CliView { follow_links: true, ..cli }),
{
}

/// Each flag with a number sets the number that it is for; lines around matches count as asked for
/// from then on. A value that is no number is told, with the flag.
pub proof fn a_number_is_set_by_its_flag(cli: CliView, value: Seq<char>, label: Seq<char>)
    ensures
        size_value(value) matches Some(number) ==> {
            &&& with_value(cli, ValueFlag::TopK, value, label) == Ok::<CliView, Seq<char>>(
                CliView { top_k: number, ..cli },
            )
            &&& with_value(cli, ValueFlag::MaxCandidateLines, value, label) == Ok::<
                CliView,
                Seq<char>,
            >(CliView { max_candidate_lines: number, ..cli })
            &&& with_value(cli, ValueFlag::MaxSnippets, value, label) == Ok::<CliView, Seq<char>>(
                CliView { max_snippets: number, ..cli },
            )
            &&& with_value(cli, ValueFlag::AfterContext, value, label) == Ok::<CliView, Seq<char>>(
                CliView { after_context: number, context_explicit: true, ..cli },
            )
            &&& with_value(cli, ValueFlag::BeforeContext, value, label) == Ok::<
                CliView,
                Seq<char>,
            >(CliView { before_context: number, context_explicit: true, ..cli })
            &&& with_value(cli, ValueFlag::Context, value, label) == Ok::<CliView, Seq<char>>(
                CliView {
                    before_context: number,
                    after_context: number,
                    context_explicit: true,
                    ..cli
                },
            )
        },
        size_value(value) is None ==> forall|flag: ValueFlag|
            flag is TopK || flag is MaxCandidateLines || flag is MaxSnippets || flag is AfterContext
                || flag is BeforeContext || flag is Context ==> #[trigger] with_value(
                cli,
                flag,
                value,
                label,
            ) == Err::<CliView, Seq<char>>(
                "invalid numeric value for "@ + label + ": "@ + value,
            ),
{
}

/// Globs and file types are put behind those that were given before, and a colour mode is set by its
/// name.
pub proof fn a_name_is_put_to_its_list(cli: CliView, value: Seq<char>, label: Seq<char>)
    ensures
        with_value(cli, ValueFlag::Glob, value, label) == Ok::<CliView, Seq<char>>(
            CliView { globs: cli.globs.push(value), ..cli },
        ),
        with_value(cli, ValueFlag::Type, value, label) == Ok::<CliView, Seq<char>>(
            CliView { type_names: cli.type_names.push(value), ..cli },
        ),
        with_value(cli, ValueFlag::TypeNot, value, label) == Ok::<CliView, Seq<char>>(
            CliView { type_not_names: cli.type_not_names.push(value), ..cli },
        ),
        with_value(cli, ValueFlag::Color, "auto"@, label) == Ok::<CliView, Seq<char>>(
            CliView { color_mode: ColorMode::Auto, ..cli },
        ),
        with_value(cli, ValueFlag::Color, "always"@, label) == Ok::<CliView, Seq<char>>(
            CliView { color_mode: ColorMode::Always, ..cli },
        ),
        with_value(cli, ValueFlag::Color, "never"@, label) == Ok::<CliView, Seq<char>>(
            CliView { color_mode: ColorMode::Never, ..cli },
        ),
        value != "auto"@ && value != "always"@ && value != "never"@ ==> with_value(
            cli,
            ValueFlag::Color,
            value,
            label,
        ) == Err::<CliView, Seq<char>>("invalid value for --color: "@ + value),
{
    reveal_strlit("auto");
    reveal_strlit("always");
    reveal_strlit("never");
    assert("never"@.len() == 5 && "auto"@.len() == 4 && "always"@.len() == 6);
}

/// The first positional argument is the query and the others are where to search; where files are
/// listed, all of them are. Without a place to search, it is the current directory.
pub proof fn the_first_positional_is_the_query(cli: CliView, positionals: Seq<Seq<char>>)
    ensures
        cli.files_mode && positionals.len() > 0 ==> with_positionals(cli, positionals) == Ok::<
            ParseOutcomeView,
            Seq<char>,
        >(ParseOutcomeView::Cli(CliView { query: None, roots: positionals, ..cli })),
        cli.files_mode && positionals.len() == 0 ==> with_positionals(cli, positionals) == Ok::<
            ParseOutcomeView,
            Seq<char>,
        >(ParseOutcomeView::Cli(CliView { query: None, roots: seq!["."@], ..cli })),
        !cli.files_mode && positionals.len() == 0 ==> with_positionals(cli, positionals) == Err::<
            ParseOutcomeView,
            Seq<char>,
        >("missing query\n\n"@ + help()),
        !cli.files_mode && positionals.len() > 0 && blank(positionals[0]) ==> with_positionals(
            cli,
            positionals,
        ) == Err::<ParseOutcomeView, Seq<char>>("query must not be empty"@),
        !cli.files_mode && positionals.len() == 1 && !blank(positionals[0]) ==> with_positionals(
            cli,
            positionals,
        ) == Ok::<ParseOutcomeView, Seq<char>>(
            ParseOutcomeView::Cli(
                CliView { query: Some(positionals[0]), roots: seq!["."@], ..cli },
            ),
        ),
        !cli.files_mode && positionals.len() > 1 && !blank(positionals[0]) ==> with_positionals(
            cli,
            positionals,
        ) == Ok::<ParseOutcomeView, Seq<char>>(
            ParseOutcomeView::Cli(
                CliView { query: Some(positionals[0]), roots: positionals.skip(1), ..cli },
            ),
        ),
{
    if positionals.len() > 0 {
        assert(positionals.drop_first() == positionals.skip(1));
    }
}

/// Arguments are read from the left, one after the other, each with what it asks for: flags change
/// what was asked for before, positional arguments are kept in order, and the first error is told.
pub proof fn arguments_are_read_from_the_left(
    cli: CliView,
    positionals: Seq<Seq<char>>,
    argument: Seq<char>,
    value: Seq<char>,
    rest: Seq<Seq<char>>,
)
    ensures
        parsed(rest) == parsed_from(defaults(), Seq::empty(), rest),
        parsed_from(cli, positionals, Seq::empty()) == with_positionals(cli, positionals),
        argument_kind(argument) == Argument::Switch(Switch::Help) ==> parsed_from(
            cli,
            positionals,
            seq![argument] + rest,
        ) == Ok::<ParseOutcomeView, Seq<char>>(ParseOutcomeView::Help),
        argument_kind(argument) == Argument::Switch(Switch::Version) ==> parsed_from(
            cli,
            positionals,
            seq![argument] + rest,
        ) == Ok::<ParseOutcomeView, Seq<char>>(ParseOutcomeView::Version),
        argument_kind(argument) matches Argument::Switch(switch) ==> switch == Switch::Help
            || switch == Switch::Version || parsed_from(cli, positionals, seq![argument] + rest)
            == parsed_from(with_switch(cli, switch), positionals, rest),
        argument_kind(argument) matches Argument::Separate(flag) ==> match with_value(
            cli,
            flag,
            value,
            argument,
        ) {
            Ok(next) => parsed_from(cli, positionals, seq![argument, value] + rest) == parsed_from(
                next,
                positionals,
                rest,
            ),
            Err(message) => parsed_from(cli, positionals, seq![argument, value] + rest) == Err::<
                ParseOutcomeView,
                Seq<char>,
            >(message),
        },
        argument_kind(argument) is Separate ==> parsed_from(cli, positionals, seq![argument])
            == Err::<ParseOutcomeView, Seq<char>>("missing value for "@ + argument),
        argument_kind(argument) is Positional ==> parsed_from(
            cli,
            positionals,
            seq![argument] + rest,
        ) == parsed_from(cli, positionals.push(argument), rest),
        argument_kind(argument) is Unknown ==> parsed_from(
            cli,
            positionals,
            seq![argument] + rest,
        ) == Err::<ParseOutcomeView, Seq<char>>(
            "unknown flag: "@ + argument + "\n\n"@ + help(),
        ),
        argument_kind(argument) is Separator ==> parsed_from(
            cli,
            positionals,
            seq![argument] + rest,
        ) == with_positionals(cli, positionals + rest),
{
    let one = seq![argument] + rest;
    assert(one[0] == argument);
    assert(one.drop_first() == rest);
    let two = seq![argument, value] + rest;
    assert(two[0] == argument);
    assert(two.drop_first()[0] == value);
    assert(two.drop_first().drop_first() == rest);
    assert(seq![argument].drop_first() == Seq::<Seq<char>>::empty());
}

/// How long flags are written.
proof fn lemma_lengths()
    ensures
        "-h"@.len() == 2,
        "--help"@.len() == 6,
        "-v"@.len() == 2,
        "--version"@.len() == 9,
        "--files"@.len() == 7,
        "--debug"@.len() == 7,
        "-F"@.len() == 2,
        "--fixed-strings"@.len() == 15,
        "-i"@.len() == 2,
        "--ignore-case"@.len() == 13,
        "-s"@.len() == 2,
        "--case-sensitive"@.len() == 16,
        "-S"@.len() == 2,
        "--smart-case"@.len() == 12,
        "-n"@.len() == 2,
        "--column"@.len() == 8,
        "--heading"@.len() == 9,
        "--no-heading"@.len() == 12,
        "--json"@.len() == 6,
        "--ranked"@.len() == 8,
        "--all"@.len() == 5,
        "-w"@.len() == 2,
        "--word-regexp"@.len() == 13,
        "-x"@.len() == 2,
        "--line-regexp"@.len() == 13,
        "-l"@.len() == 2,
        "--files-with-matches"@.len() == 20,
        "--files-without-match"@.len() == 21,
        "-c"@.len() == 2,
        "--count"@.len() == 7,
        "--hidden"@.len() == 8,
        "--no-ignore"@.len() == 11,
        "-L"@.len() == 2,
        "--follow"@.len() == 8,
        "--follow-links"@.len() == 14,
        "--color"@.len() == 7,
        "-k"@.len() == 2,
        "--top-k"@.len() == 7,
        "-m"@.len() == 2,
        "--max-candidate-lines"@.len() == 21,
        "-A"@.len() == 2,
        "--after-context"@.len() == 15,
        "-B"@.len() == 2,
        "--before-context"@.len() == 16,
        "-C"@.len() == 2,
        "--context"@.len() == 9,
        "--max-snippets"@.len() == 14,
        "-g"@.len() == 2,
        "--glob"@.len() == 6,
        "-t"@.len() == 2,
        "--type"@.len() == 6,
        "-T"@.len() == 2,
        "--type-not"@.len() == 10,
{
    reveal_strlit("-h");
    reveal_strlit("--help");
    reveal_strlit("-v");
    reveal_strlit("--version");
    reveal_strlit("--files");
    reveal_strlit("--debug");
    reveal_strlit("-F");
    reveal_strlit("--fixed-strings");
    reveal_strlit("-i");
    reveal_strlit("--ignore-case");
    reveal_strlit("-s");
    reveal_strlit("--case-sensitive");
    reveal_strlit("-S");
    reveal_strlit("--smart-case");
    reveal_strlit("-n");
    reveal_strlit("--column");
    reveal_strlit("--heading");
    reveal_strlit("--no-heading");
    reveal_strlit("--json");
    reveal_strlit("--ranked");
    reveal_strlit("--all");
    reveal_strlit("-w");
    reveal_strlit("--word-regexp");
    reveal_strlit("-x");
    reveal_strlit("--line-regexp");
    reveal_strlit("-l");
    reveal_strlit("--files-with-matches");
    reveal_strlit("--files-without-match");
    reveal_strlit("-c");
    reveal_strlit("--count");
    reveal_strlit("--hidden");
    reveal_strlit("--no-ignore");
    reveal_strlit("-L");
    reveal_strlit("--follow");
    reveal_strlit("--follow-links");
    reveal_strlit("--color");
    reveal_strlit("-k");
    reveal_strlit("--top-k");
    reveal_strlit("-m");
    reveal_strlit("--max-candidate-lines");
    reveal_strlit("-A");
    reveal_strlit("--after-context");
    reveal_strlit("-B");
    reveal_strlit("--before-context");
    reveal_strlit("-C");
    reveal_strlit("--context");
    reveal_strlit("--max-snippets");
    reveal_strlit("-g");
    reveal_strlit("--glob");
    reveal_strlit("-t");
    reveal_strlit("--type");
    reveal_strlit("-T");
    reveal_strlit("--type-not");
}

/// Flags begin with a hyphen, and are not empty.
proof fn lemma_hyphens()
    ensures
        "-h"@.len() > 0 && "-h"@[0] == '-',
        "--help"@.len() > 0 && "--help"@[0] == '-',
        "-v"@.len() > 0 && "-v"@[0] == '-',
        "--version"@.len() > 0 && "--version"@[0] == '-',
        "--files"@.len() > 0 && "--files"@[0] == '-',
        "--debug"@.len() > 0 && "--debug"@[0] == '-',
        "-F"@.len() > 0 && "-F"@[0] == '-',
        "--fixed-strings"@.len() > 0 && "--fixed-strings"@[0] == '-',
        "-i"@.len() > 0 && "-i"@[0] == '-',
        "--ignore-case"@.len() > 0 && "--ignore-case"@[0] == '-',
        "-s"@.len() > 0 && "-s"@[0] == '-',
        "--case-sensitive"@.len() > 0 && "--case-sensitive"@[0] == '-',
        "-S"@.len() > 0 && "-S"@[0] == '-',
        "--smart-case"@.len() > 0 && "--smart-case"@[0] == '-',
        "-n"@.len() > 0 && "-n"@[0] == '-',
        "--column"@.len() > 0 && "--column"@[0] == '-',
        "--heading"@.len() > 0 && "--heading"@[0] == '-',
        "--no-heading"@.len() > 0 && "--no-heading"@[0] == '-',
        "--json"@.len() > 0 && "--json"@[0] == '-',
        "--ranked"@.len() > 0 && "--ranked"@[0] == '-',
        "--all"@.len() > 0 && "--all"@[0] == '-',
        "-w"@.len() > 0 && "-w"@[0] == '-',
        "--word-regexp"@.len() > 0 && "--word-regexp"@[0] == '-',
        "-x"@.len() > 0 && "-x"@[0] == '-',
        "--line-regexp"@.len() > 0 && "--line-regexp"@[0] == '-',
        "-l"@.len() > 0 && "-l"@[0] == '-',
        "--files-with-matches"@.len() > 0 && "--files-with-matches"@[0] == '-',
        "--files-without-match"@.len() > 0 && "--files-without-match"@[0] == '-',
        "-c"@.len() > 0 && "-c"@[0] == '-',
        "--count"@.len() > 0 && "--count"@[0] == '-',
        "--hidden"@.len() > 0 && "--hidden"@[0] == '-',
        "--no-ignore"@.len() > 0 && "--no-ignore"@[0] == '-',
        "-L"@.len() > 0 && "-L"@[0] == '-',
        "--follow"@.len() > 0 && "--follow"@[0] == '-',
        "--follow-links"@.len() > 0 && "--follow-links"@[0] == '-',
        "--color"@.len() > 0 && "--color"@[0] == '-',
        "-k"@.len() > 0 && "-k"@[0] == '-',
        "--top-k"@.len() > 0 && "--top-k"@[0] == '-',
        "-m"@.len() > 0 && "-m"@[0] == '-',
        "--max-candidate-lines"@.len() > 0 && "--max-candidate-lines"@[0] == '-',
        "-A"@.len() > 0 && "-A"@[0] == '-',
        "--after-context"@.len() > 0 && "--after-context"@[0] == '-',
        "-B"@.len() > 0 && "-B"@[0] == '-',
        "--before-context"@.len() > 0 && "--before-context"@[0] == '-',
        "-C"@.len() > 0 && "-C"@[0] == '-',
        "--context"@.len() > 0 && "--context"@[0] == '-',
        "--max-snippets"@.len() > 0 && "--max-snippets"@[0] == '-',
        "-g"@.len() > 0 && "-g"@[0] == '-',
        "--glob"@.len() > 0 && "--glob"@[0] == '-',
        "-t"@.len() > 0 && "-t"@[0] == '-',
        "--type"@.len() > 0 && "--type"@[0] == '-',
        "-T"@.len() > 0 && "-T"@[0] == '-',
        "--type-not"@.len() > 0 && "--type-not"@[0] == '-',
        "--color="@.len() > 0 && "--color="@[0] == '-',
        "--top-k="@.len() > 0 && "--top-k="@[0] == '-',
        "--max-candidate-lines="@.len() > 0 && "--max-candidate-lines="@[0] == '-',
        "--after-context="@.len() > 0 && "--after-context="@[0] == '-',
        "--before-context="@.len() > 0 && "--before-context="@[0] == '-',
        "--context="@.len() > 0 && "--context="@[0] == '-',
        "--max-snippets="@.len() > 0 && "--max-snippets="@[0] == '-',
        "--glob="@.len() > 0 && "--glob="@[0] == '-',
        "--type="@.len() > 0 && "--type="@[0] == '-',
        "--type-not="@.len() > 0 && "--type-not="@[0] == '-',
        "--"@.len() > 0 && "--"@[0] == '-',
        "-"@.len() > 0 && "-"@[0] == '-',
{
    reveal_strlit("-h");
    reveal_strlit("--help");
    reveal_strlit("-v");
    reveal_strlit("--version");
    reveal_strlit("--files");
    reveal_strlit("--debug");
    reveal_strlit("-F");
    reveal_strlit("--fixed-strings");
    reveal_strlit("-i");
    reveal_strlit("--ignore-case");
    reveal_strlit("-s");
    reveal_strlit("--case-sensitive");
    reveal_strlit("-S");
    reveal_strlit("--smart-case");
    reveal_strlit("-n");
    reveal_strlit("--column");
    reveal_strlit("--heading");
    reveal_strlit("--no-heading");
    reveal_strlit("--json");
    reveal_strlit("--ranked");
    reveal_strlit("--all");
    reveal_strlit("-w");
    reveal_strlit("--word-regexp");
    reveal_strlit("-x");
    reveal_strlit("--line-regexp");
    reveal_strlit("-l");
    reveal_strlit("--files-with-matches");
    reveal_strlit("--files-without-match");
    reveal_strlit("-c");
    reveal_strlit("--count");
    reveal_strlit("--hidden");
    reveal_strlit("--no-ignore");
    reveal_strlit("-L");
    reveal_strlit("--follow");
    reveal_strlit("--follow-links");
    reveal_strlit("--color");
    reveal_strlit("-k");
    reveal_strlit("--top-k");
    reveal_strlit("-m");
    reveal_strlit("--max-candidate-lines");
    reveal_strlit("-A");
    reveal_strlit("--after-context");
    reveal_strlit("-B");
    reveal_strlit("--before-context");
    reveal_strlit("-C");
    reveal_strlit("--context");
    reveal_strlit("--max-snippets");
    reveal_strlit("-g");
    reveal_strlit("--glob");
    reveal_strlit("-t");
    reveal_strlit("--type");
    reveal_strlit("-T");
    reveal_strlit("--type-not");
    reveal_strlit("--color=");
    reveal_strlit("--top-k=");
    reveal_strlit("--max-candidate-lines=");
    reveal_strlit("--after-context=");
    reveal_strlit("--before-context=");
    reveal_strlit("--context=");
    reveal_strlit("--max-snippets=");
    reveal_strlit("--glob=");
    reveal_strlit("--type=");
    reveal_strlit("--type-not=");
    reveal_strlit("--");
    reveal_strlit("-");
}

/// An argument that does not begin with a hyphen is positional.
pub proof fn flags_begin_with_a_hyphen(text: Seq<char>)
    requires
        text.len() == 0 || text[0] != '-',
    ensures
        argument_kind(text) == Argument::Positional,
{
    lemma_hyphens();
}

/// A flag of a hyphen and a letter is told by the letter.
pub proof fn short_flags_are_told_by_their_letters(text: Seq<char>, letter: char)
    requires
        text == seq!['-', letter],
    ensures
        switch_written(text) == if letter == 'h' {
            Some(Switch::Help)
        } else if letter == 'v' {
            Some(Switch::Version)
        } else if letter == 'F' {
            Some(Switch::FixedStrings)
        } else if letter == 'i' {
            Some(Switch::IgnoreCase)
        } else if letter == 's' {
            Some(Switch::CaseSensitive)
        } else if letter == 'S' {
            Some(Switch::SmartCase)
        } else if letter == 'n' {
            Some(Switch::LineNumbers)
        } else if letter == 'w' {
            Some(Switch::WordRegexp)
        } else if letter == 'x' {
            Some(Switch::LineRegexp)
        } else if letter == 'l' {
            Some(Switch::FilesWithMatches)
        } else if letter == 'c' {
            Some(Switch::Count)
        } else if letter == 'L' {
            Some(Switch::Follow)
        } else {
            None
        },
        value_flag_written(text) == if letter == 'k' {
            Some(ValueFlag::TopK)
        } else if letter == 'm' {
            Some(ValueFlag::MaxCandidateLines)
        } else if letter == 'A' {
            Some(ValueFlag::AfterContext)
        } else if letter == 'B' {
            Some(ValueFlag::BeforeContext)
        } else if letter == 'C' {
            Some(ValueFlag::Context)
        } else if letter == 'g' {
            Some(ValueFlag::Glob)
        } else if letter == 't' {
            Some(ValueFlag::Type)
        } else if letter == 'T' {
            Some(ValueFlag::TypeNot)
        } else {
            None
        },
{
    lemma_lengths();
    reveal_strlit("-h");
    assert(letter == 'h' ==> text == "-h"@);
    assert("-h"@[1] == 'h');
    reveal_strlit("-v");
    assert(letter == 'v' ==> text == "-v"@);
    assert("-v"@[1] == 'v');
    reveal_strlit("-F");
    assert(letter == 'F' ==> text == "-F"@);
    assert("-F"@[1] == 'F');
    reveal_strlit("-i");
    assert(letter == 'i' ==> text == "-i"@);
    assert("-i"@[1] == 'i');
    reveal_strlit("-s");
    assert(letter == 's' ==> text == "-s"@);
    assert("-s"@[1] == 's');
    reveal_strlit("-S");
    assert(letter == 'S' ==> text == "-S"@);
    assert("-S"@[1] == 'S');
    reveal_strlit("-n");
    assert(letter == 'n' ==> text == "-n"@);
    assert("-n"@[1] == 'n');
    reveal_strlit("-w");
    assert(letter == 'w' ==> text == "-w"@);
    assert("-w"@[1] == 'w');
    reveal_strlit("-x");
    assert(letter == 'x' ==> text == "-x"@);
    assert("-x"@[1] == 'x');
    reveal_strlit("-l");
    assert(letter == 'l' ==> text == "-l"@);
    assert("-l"@[1] == 'l');
    reveal_strlit("-c");
    assert(letter == 'c' ==> text == "-c"@);
    assert("-c"@[1] == 'c');
    reveal_strlit("-L");
    assert(letter == 'L' ==> text == "-L"@);
    assert("-L"@[1] == 'L');
    reveal_strlit("-k");
    assert(letter == 'k' ==> text == "-k"@);
    assert("-k"@[1] == 'k');
    reveal_strlit("-m");
    assert(letter == 'm' ==> text == "-m"@);
    assert("-m"@[1] == 'm');
    reveal_strlit("-A");
    assert(letter == 'A' ==> text == "-A"@);
    assert("-A"@[1] == 'A');
    reveal_strlit("-B");
    assert(letter == 'B' ==> text == "-B"@);
    assert("-B"@[1] == 'B');
    reveal_strlit("-C");
    assert(letter == 'C' ==> text == "-C"@);
    assert("-C"@[1] == 'C');
    reveal_strlit("-g");
    assert(letter == 'g' ==> text == "-g"@);
    assert("-g"@[1] == 'g');
    reveal_strlit("-t");
    assert(letter == 't' ==> text == "-t"@);
    assert("-t"@[1] == 't');
    reveal_strlit("-T");
    assert(letter == 'T' ==> text == "-T"@);
    assert("-T"@[1] == 'T');
}

/// Long flags without a value.
pub proof fn long_switches_are_written()
    ensures
        switch_written("--help"@) == Some(Switch::Help),
        switch_written("--version"@) == Some(Switch::Version),
        switch_written("--files"@) == Some(Switch::Files),
        switch_written("--debug"@) == Some(Switch::Debug),
        switch_written("--fixed-strings"@) == Some(Switch::FixedStrings),
        switch_written("--ignore-case"@) == Some(Switch::IgnoreCase),
        switch_written("--case-sensitive"@) == Some(Switch::CaseSensitive),
        switch_written("--smart-case"@) == Some(Switch::SmartCase),
        switch_written("--column"@) == Some(Switch::Column),
        switch_written("--heading"@) == Some(Switch::Heading),
        switch_written("--no-heading"@) == Some(Switch::NoHeading),
        switch_written("--json"@) == Some(Switch::Json),
        switch_written("--ranked"@) == Some(Switch::Ranked),
        switch_written("--all"@) == Some(Switch::All),
        switch_written("--word-regexp"@) == Some(Switch::WordRegexp),
        switch_written("--line-regexp"@) == Some(Switch::LineRegexp),
        switch_written("--files-with-matches"@) == Some(Switch::FilesWithMatches),
        switch_written("--files-without-match"@) == Some(Switch::FilesWithoutMatch),
        switch_written("--count"@) == Some(Switch::Count),
        switch_written("--hidden"@) == Some(Switch::Hidden),
        switch_written("--no-ignore"@) == Some(Switch::NoIgnore),
        switch_written("--follow"@) == Some(Switch::Follow),
        switch_written("--follow-links"@) == Some(Switch::Follow),
{
    assert(switch_written("--help"@) == Some(Switch::Help)) by {
        lemma_lengths();
        reveal_strlit("--help");
        reveal_strlit("--json");
        assert("--help"@[2] != "--json"@[2]);
    }
    assert(switch_written("--version"@) == Some(Switch::Version)) by {
        lemma_lengths();
        reveal_strlit("--version");
        reveal_strlit("--heading");
        assert("--version"@[2] != "--heading"@[2]);
    }
    assert(switch_written("--files"@) == Some(Switch::Files)) by {
        lemma_lengths();
        reveal_strlit("--files");
        reveal_strlit("--debug");
        assert("--files"@[2] != "--debug"@[2]);
        reveal_strlit("--count");
        assert("--files"@[2] != "--count"@[2]);
    }
    assert(switch_written("--debug"@) == Some(Switch::Debug)) by {
        lemma_lengths();
        reveal_strlit("--debug");
        reveal_strlit("--files");
        assert("--debug"@[2] != "--files"@[2]);
        reveal_strlit("--count");
        assert("--debug"@[2] != "--count"@[2]);
    }
    assert(switch_written("--fixed-strings"@) == Some(Switch::FixedStrings)) by {
        lemma_lengths();
    }
    assert(switch_written("--ignore-case"@) == Some(Switch::IgnoreCase)) by {
        lemma_lengths();
        reveal_strlit("--ignore-case");
        reveal_strlit("--word-regexp");
        assert("--ignore-case"@[2] != "--word-regexp"@[2]);
        reveal_strlit("--line-regexp");
        assert("--ignore-case"@[2] != "--line-regexp"@[2]);
    }
    assert(switch_written("--case-sensitive"@) == Some(Switch::CaseSensitive)) by {
        lemma_lengths();
    }
    assert(switch_written("--smart-case"@) == Some(Switch::SmartCase)) by {
        lemma_lengths();
        reveal_strlit("--smart-case");
        reveal_strlit("--no-heading");
        assert("--smart-case"@[2] != "--no-heading"@[2]);
    }
    assert(switch_written("--column"@) == Some(Switch::Column)) by {
        lemma_lengths();
        reveal_strlit("--column");
        reveal_strlit("--ranked");
        assert("--column"@[2] != "--ranked"@[2]);
        reveal_strlit("--hidden");
        assert("--column"@[2] != "--hidden"@[2]);
        reveal_strlit("--follow");
        assert("--column"@[2] != "--follow"@[2]);
    }
    assert(switch_written("--heading"@) == Some(Switch::Heading)) by {
        lemma_lengths();
        reveal_strlit("--heading");
        reveal_strlit("--version");
        assert("--heading"@[2] != "--version"@[2]);
    }
    assert(switch_written("--no-heading"@) == Some(Switch::NoHeading)) by {
        lemma_lengths();
        reveal_strlit("--no-heading");
        reveal_strlit("--smart-case");
        assert("--no-heading"@[2] != "--smart-case"@[2]);
    }
    assert(switch_written("--json"@) == Some(Switch::Json)) by {
        lemma_lengths();
        reveal_strlit("--json");
        reveal_strlit("--help");
        assert("--json"@[2] != "--help"@[2]);
    }
    assert(switch_written("--ranked"@) == Some(Switch::Ranked)) by {
        lemma_lengths();
        reveal_strlit("--ranked");
        reveal_strlit("--column");
        assert("--ranked"@[2] != "--column"@[2]);
        reveal_strlit("--hidden");
        assert("--ranked"@[2] != "--hidden"@[2]);
        reveal_strlit("--follow");
        assert("--ranked"@[2] != "--follow"@[2]);
    }
    assert(switch_written("--all"@) == Some(Switch::All)) by {
        lemma_lengths();
    }
    assert(switch_written("--word-regexp"@) == Some(Switch::WordRegexp)) by {
        lemma_lengths();
        reveal_strlit("--word-regexp");
        reveal_strlit("--ignore-case");
        assert("--word-regexp"@[2] != "--ignore-case"@[2]);
        reveal_strlit("--line-regexp");
        assert("--word-regexp"@[2] != "--line-regexp"@[2]);
    }
    assert(switch_written("--line-regexp"@) == Some(Switch::LineRegexp)) by {
        lemma_lengths();
        reveal_strlit("--line-regexp");
        reveal_strlit("--ignore-case");
        assert("--line-regexp"@[2] != "--ignore-case"@[2]);
        reveal_strlit("--word-regexp");
        assert("--line-regexp"@[2] != "--word-regexp"@[2]);
    }
    assert(switch_written("--files-with-matches"@) == Some(Switch::FilesWithMatches)) by {
        lemma_lengths();
    }
    assert(switch_written("--files-without-match"@) == Some(Switch::FilesWithoutMatch)) by {
        lemma_lengths();
    }
    assert(switch_written("--count"@) == Some(Switch::Count)) by {
        lemma_lengths();
        reveal_strlit("--count");
        reveal_strlit("--files");
        assert("--count"@[2] != "--files"@[2]);
        reveal_strlit("--debug");
        assert("--count"@[2] != "--debug"@[2]);
    }
    assert(switch_written("--hidden"@) == Some(Switch::Hidden)) by {
        lemma_lengths();
        reveal_strlit("--hidden");
        reveal_strlit("--column");
        assert("--hidden"@[2] != "--column"@[2]);
        reveal_strlit("--ranked");
        assert("--hidden"@[2] != "--ranked"@[2]);
        reveal_strlit("--follow");
        assert("--hidden"@[2] != "--follow"@[2]);
    }
    assert(switch_written("--no-ignore"@) == Some(Switch::NoIgnore)) by {
        lemma_lengths();
    }
    assert(switch_written("--follow"@) == Some(Switch::Follow)) by {
        lemma_lengths();
        reveal_strlit("--follow");
        reveal_strlit("--column");
        assert("--follow"@[2] != "--column"@[2]);
        reveal_strlit("--ranked");
        assert("--follow"@[2] != "--ranked"@[2]);
        reveal_strlit("--hidden");
        assert("--follow"@[2] != "--hidden"@[2]);
    }
    assert(switch_written("--follow-links"@) == Some(Switch::Follow)) by {
        lemma_lengths();
    }
}

/// Long flags whose value is the next argument.
pub proof fn long_value_flags_are_written()
    ensures
        switch_written("--color"@) is None && value_flag_written("--color"@) == Some(ValueFlag::Color),
        switch_written("--top-k"@) is None && value_flag_written("--top-k"@) == Some(ValueFlag::TopK),
        switch_written("--max-candidate-lines"@) is None && value_flag_written("--max-candidate-lines"@) == Some(ValueFlag::MaxCandidateLines),
        switch_written("--after-context"@) is None && value_flag_written("--after-context"@) == Some(ValueFlag::AfterContext),
        switch_written("--before-context"@) is None && value_flag_written("--before-context"@) == Some(ValueFlag::BeforeContext),
        switch_written("--context"@) is None && value_flag_written("--context"@) == Some(ValueFlag::Context),
        switch_written("--max-snippets"@) is None && value_flag_written("--max-snippets"@) == Some(ValueFlag::MaxSnippets),
        switch_written("--glob"@) is None && value_flag_written("--glob"@) == Some(ValueFlag::Glob),
        switch_written("--type"@) is None && value_flag_written("--type"@) == Some(ValueFlag::Type),
        switch_written("--type-not"@) is None && value_flag_written("--type-not"@) == Some(ValueFlag::TypeNot),
{
    assert(switch_written("--color"@) is None) by {
        lemma_lengths();
        reveal_strlit("--color");
        reveal_strlit("--files");
        assert("--color"@[2] != "--files"@[2]);
        reveal_strlit("--debug");
        assert("--color"@[2] != "--debug"@[2]);
        reveal_strlit("--count");
        assert("--color"@[4] != "--count"@[4]);
    }
    assert(value_flag_written("--color"@) == Some(ValueFlag::Color)) by {
        lemma_lengths();
        reveal_strlit("--color");
        reveal_strlit("--top-k");
        assert("--color"@[2] != "--top-k"@[2]);
    }
    assert(switch_written("--top-k"@) is None) by {
        lemma_lengths();
        reveal_strlit("--top-k");
        reveal_strlit("--files");
        assert("--top-k"@[2] != "--files"@[2]);
        reveal_strlit("--debug");
        assert("--top-k"@[2] != "--debug"@[2]);
        reveal_strlit("--count");
        assert("--top-k"@[2] != "--count"@[2]);
    }
    assert(value_flag_written("--top-k"@) == Some(ValueFlag::TopK)) by {
        lemma_lengths();
        reveal_strlit("--top-k");
        reveal_strlit("--color");
        assert("--top-k"@[2] != "--color"@[2]);
    }
    assert(switch_written("--max-candidate-lines"@) is None) by {
        lemma_lengths();
        reveal_strlit("--max-candidate-lines");
        reveal_strlit("--files-without-match");
        assert("--max-candidate-lines"@[2] != "--files-without-match"@[2]);
    }
    assert(value_flag_written("--max-candidate-lines"@) == Some(ValueFlag::MaxCandidateLines)) by {
        lemma_lengths();
    }
    assert(switch_written("--after-context"@) is None) by {
        lemma_lengths();
        reveal_strlit("--after-context");
        reveal_strlit("--fixed-strings");
        assert("--after-context"@[2] != "--fixed-strings"@[2]);
    }
    assert(value_flag_written("--after-context"@) == Some(ValueFlag::AfterContext)) by {
        lemma_lengths();
    }
    assert(switch_written("--before-context"@) is None) by {
        lemma_lengths();
        reveal_strlit("--before-context");
        reveal_strlit("--case-sensitive");
        assert("--before-context"@[2] != "--case-sensitive"@[2]);
    }
    assert(value_flag_written("--before-context"@) == Some(ValueFlag::BeforeContext)) by {
        lemma_lengths();
    }
    assert(switch_written("--context"@) is None) by {
        lemma_lengths();
        reveal_strlit("--context");
        reveal_strlit("--version");
        assert("--context"@[2] != "--version"@[2]);
        reveal_strlit("--heading");
        assert("--context"@[2] != "--heading"@[2]);
    }
    assert(value_flag_written("--context"@) == Some(ValueFlag::Context)) by {
        lemma_lengths();
    }
    assert(switch_written("--max-snippets"@) is None) by {
        lemma_lengths();
        reveal_strlit("--max-snippets");
        reveal_strlit("--follow-links");
        assert("--max-snippets"@[2] != "--follow-links"@[2]);
    }
    assert(value_flag_written("--max-snippets"@) == Some(ValueFlag::MaxSnippets)) by {
        lemma_lengths();
    }
    assert(switch_written("--glob"@) is None) by {
        lemma_lengths();
        reveal_strlit("--glob");
        reveal_strlit("--help");
        assert("--glob"@[2] != "--help"@[2]);
        reveal_strlit("--json");
        assert("--glob"@[2] != "--json"@[2]);
    }
    assert(value_flag_written("--glob"@) == Some(ValueFlag::Glob)) by {
        lemma_lengths();
        reveal_strlit("--glob");
        reveal_strlit("--type");
        assert("--glob"@[2] != "--type"@[2]);
    }
    assert(switch_written("--type"@) is None) by {
        lemma_lengths();
        reveal_strlit("--type");
        reveal_strlit("--help");
        assert("--type"@[2] != "--help"@[2]);
        reveal_strlit("--json");
        assert("--type"@[2] != "--json"@[2]);
    }
    assert(value_flag_written("--type"@) == Some(ValueFlag::Type)) by {
        lemma_lengths();
        reveal_strlit("--type");
        reveal_strlit("--glob");
        assert("--type"@[2] != "--glob"@[2]);
    }
    assert(switch_written("--type-not"@) is None) by {
        lemma_lengths();
    }
    assert(value_flag_written("--type-not"@) == Some(ValueFlag::TypeNot)) by {
        lemma_lengths();
    }
}

/// A flag that is written as one is read as one; what is written as a flag with a value, and not as
/// one without, takes the next argument.
pub proof fn flags_are_read_as_they_are_written(text: Seq<char>)
    ensures
        switch_written(text) matches Some(switch) ==> argument_kind(text) == Argument::Switch(
            switch,
        ),
        switch_written(text) is None ==> (value_flag_written(text) matches Some(flag)
            ==> argument_kind(text) == Argument::Separate(flag)),
{
}

/// No flag has an equals sign where one with a value has it.
proof fn lemma_no_equals_sign()
    ensures
        "--version"@[6] != '=' && "--version"@[7] != '=',
        "--files"@[6] != '=',
        "--debug"@[6] != '=',
        "--fixed-strings"@[6] != '=' && "--fixed-strings"@[7] != '=' && "--fixed-strings"@[9] != '=' && "--fixed-strings"@[10] != '=' && "--fixed-strings"@[14] != '=',
        "--ignore-case"@[6] != '=' && "--ignore-case"@[7] != '=' && "--ignore-case"@[9] != '=' && "--ignore-case"@[10] != '=',
        "--case-sensitive"@[6] != '=' && "--case-sensitive"@[7] != '=' && "--case-sensitive"@[9] != '=' && "--case-sensitive"@[10] != '=' && "--case-sensitive"@[14] != '=' && "--case-sensitive"@[15] != '=',
        "--smart-case"@[6] != '=' && "--smart-case"@[7] != '=' && "--smart-case"@[9] != '=' && "--smart-case"@[10] != '=',
        "--column"@[6] != '=' && "--column"@[7] != '=',
        "--heading"@[6] != '=' && "--heading"@[7] != '=',
        "--no-heading"@[6] != '=' && "--no-heading"@[7] != '=' && "--no-heading"@[9] != '=' && "--no-heading"@[10] != '=',
        "--ranked"@[6] != '=' && "--ranked"@[7] != '=',
        "--word-regexp"@[6] != '=' && "--word-regexp"@[7] != '=' && "--word-regexp"@[9] != '=' && "--word-regexp"@[10] != '=',
        "--line-regexp"@[6] != '=' && "--line-regexp"@[7] != '=' && "--line-regexp"@[9] != '=' && "--line-regexp"@[10] != '=',
        "--files-with-matches"@[6] != '=' && "--files-with-matches"@[7] != '=' && "--files-with-matches"@[9] != '=' && "--files-with-matches"@[10] != '=' && "--files-with-matches"@[14] != '=' && "--files-with-matches"@[15] != '=' && "--files-with-matches"@[16] != '=',
        "--files-without-match"@[6] != '=' && "--files-without-match"@[7] != '=' && "--files-without-match"@[9] != '=' && "--files-without-match"@[10] != '=' && "--files-without-match"@[14] != '=' && "--files-without-match"@[15] != '=' && "--files-without-match"@[16] != '=',
        "--count"@[6] != '=',
        "--hidden"@[6] != '=' && "--hidden"@[7] != '=',
        "--no-ignore"@[6] != '=' && "--no-ignore"@[7] != '=' && "--no-ignore"@[9] != '=' && "--no-ignore"@[10] != '=',
        "--follow"@[6] != '=' && "--follow"@[7] != '=',
        "--follow-links"@[6] != '=' && "--follow-links"@[7] != '=' && "--follow-links"@[9] != '=' && "--follow-links"@[10] != '=',
        "--color"@[6] != '=',
        "--top-k"@[6] != '=',
        "--max-candidate-lines"@[6] != '=' && "--max-candidate-lines"@[7] != '=' && "--max-candidate-lines"@[9] != '=' && "--max-candidate-lines"@[10] != '=' && "--max-candidate-lines"@[14] != '=' && "--max-candidate-lines"@[15] != '=' && "--max-candidate-lines"@[16] != '=',
        "--after-context"@[6] != '=' && "--after-context"@[7] != '=' && "--after-context"@[9] != '=' && "--after-context"@[10] != '=' && "--after-context"@[14] != '=',
        "--before-context"@[6] != '=' && "--before-context"@[7] != '=' && "--before-context"@[9] != '=' && "--before-context"@[10] != '=' && "--before-context"@[14] != '=' && "--before-context"@[15] != '=',
        "--context"@[6] != '=' && "--context"@[7] != '=',
        "--max-snippets"@[6] != '=' && "--max-snippets"@[7] != '=' && "--max-snippets"@[9] != '=' && "--max-snippets"@[10] != '=',
        "--type-not"@[6] != '=' && "--type-not"@[7] != '=' && "--type-not"@[9] != '=',
{
    reveal_strlit("--version");
    reveal_strlit("--files");
    reveal_strlit("--debug");
    reveal_strlit("--fixed-strings");
    reveal_strlit("--ignore-case");
    reveal_strlit("--case-sensitive");
    reveal_strlit("--smart-case");
    reveal_strlit("--column");
    reveal_strlit("--heading");
    reveal_strlit("--no-heading");
    reveal_strlit("--ranked");
    reveal_strlit("--word-regexp");
    reveal_strlit("--line-regexp");
    reveal_strlit("--files-with-matches");
    reveal_strlit("--files-without-match");
    reveal_strlit("--count");
    reveal_strlit("--hidden");
    reveal_strlit("--no-ignore");
    reveal_strlit("--follow");
    reveal_strlit("--follow-links");
    reveal_strlit("--color");
    reveal_strlit("--top-k");
    reveal_strlit("--max-candidate-lines");
    reveal_strlit("--after-context");
    reveal_strlit("--before-context");
    reveal_strlit("--context");
    reveal_strlit("--max-snippets");
    reveal_strlit("--type-not");
}

/// `--color` with a value behind it.
proof fn lemma_color_inline(value: Seq<char>)
    ensures
        argument_kind("--color="@ + value) == Argument::Inline(ValueFlag::Color),
{
    let text = "--color="@ + value;
    reveal_strlit("--color=");
    assert(text[7] == '=');
    assert(switch_written(text) is None && value_flag_written(text) is None) by {
        lemma_lengths();
        lemma_no_equals_sign();
    }
    assert(long_inline(text) == Some(ValueFlag::Color)) by {
        assert(text.subrange(0, 8) == "--color="@);
        reveal_strlit("--top-k=");
        assert("--top-k="@[2] != text[2]);
        assert(!"--top-k="@.is_prefix_of(text)) by {
            if "--top-k="@.is_prefix_of(text) {
                assert(text.subrange(0, 8)[2] == text[2]);
            }
        }
        reveal_strlit("--max-candidate-lines=");
        assert("--max-candidate-lines="@[2] != text[2]);
        assert(!"--max-candidate-lines="@.is_prefix_of(text)) by {
            if "--max-candidate-lines="@.is_prefix_of(text) {
                assert(text.subrange(0, 22)[2] == text[2]);
            }
        }
        reveal_strlit("--after-context=");
        assert("--after-context="@[2] != text[2]);
        assert(!"--after-context="@.is_prefix_of(text)) by {
            if "--after-context="@.is_prefix_of(text) {
                assert(text.subrange(0, 16)[2] == text[2]);
            }
        }
        reveal_strlit("--before-context=");
        assert("--before-context="@[2] != text[2]);
        assert(!"--before-context="@.is_prefix_of(text)) by {
            if "--before-context="@.is_prefix_of(text) {
                assert(text.subrange(0, 17)[2] == text[2]);
            }
        }
        reveal_strlit("--context=");
        assert("--context="@[4] != text[4]);
        assert(!"--context="@.is_prefix_of(text)) by {
            if "--context="@.is_prefix_of(text) {
                assert(text.subrange(0, 10)[4] == text[4]);
            }
        }
        reveal_strlit("--max-snippets=");
        assert("--max-snippets="@[2] != text[2]);
        assert(!"--max-snippets="@.is_prefix_of(text)) by {
            if "--max-snippets="@.is_prefix_of(text) {
                assert(text.subrange(0, 15)[2] == text[2]);
            }
        }
        reveal_strlit("--glob=");
        assert("--glob="@[2] != text[2]);
        assert(!"--glob="@.is_prefix_of(text)) by {
            if "--glob="@.is_prefix_of(text) {
                assert(text.subrange(0, 7)[2] == text[2]);
            }
        }
        reveal_strlit("--type=");
        assert("--type="@[2] != text[2]);
        assert(!"--type="@.is_prefix_of(text)) by {
            if "--type="@.is_prefix_of(text) {
                assert(text.subrange(0, 7)[2] == text[2]);
            }
        }
        reveal_strlit("--type-not=");
        assert("--type-not="@[2] != text[2]);
        assert(!"--type-not="@.is_prefix_of(text)) by {
            if "--type-not="@.is_prefix_of(text) {
                assert(text.subrange(0, 11)[2] == text[2]);
            }
        }
    }
}

/// `--top-k` with a value behind it.
proof fn lemma_top_k_inline(value: Seq<char>)
    ensures
        argument_kind("--top-k="@ + value) == Argument::Inline(ValueFlag::TopK),
{
    let text = "--top-k="@ + value;
    reveal_strlit("--top-k=");
    assert(text[7] == '=');
    assert(switch_written(text) is None && value_flag_written(text) is None) by {
        lemma_lengths();
        lemma_no_equals_sign();
    }
    assert(long_inline(text) == Some(ValueFlag::TopK)) by {
        assert(text.subrange(0, 8) == "--top-k="@);
    }
}

/// `--max-candidate-lines` with a value behind it.
proof fn lemma_max_candidate_lines_inline(value: Seq<char>)
    ensures
        argument_kind("--max-candidate-lines="@ + value) == Argument::Inline(ValueFlag::MaxCandidateLines),
{
    let text = "--max-candidate-lines="@ + value;
    reveal_strlit("--max-candidate-lines=");
    assert(text[21] == '=');
    assert(switch_written(text) is None && value_flag_written(text) is None) by {
        lemma_lengths();
        lemma_no_equals_sign();
    }
    assert(long_inline(text) == Some(ValueFlag::MaxCandidateLines)) by {
        assert(text.subrange(0, 22) == "--max-candidate-lines="@);
        reveal_strlit("--top-k=");
        assert("--top-k="@[2] != text[2]);
        assert(!"--top-k="@.is_prefix_of(text)) by {
            if "--top-k="@.is_prefix_of(text) {
                assert(text.subrange(0, 8)[2] == text[2]);
            }
        }
    }
}

/// `--after-context` with a value behind it.
proof fn lemma_after_context_inline(value: Seq<char>)
    ensures
        argument_kind("--after-context="@ + value) == Argument::Inline(ValueFlag::AfterContext),
{
    let text = "--after-context="@ + value;
    reveal_strlit("--after-context=");
    assert(text[15] == '=');
    assert(switch_written(text) is None && value_flag_written(text) is None) by {
        lemma_lengths();
        lemma_no_equals_sign();
    }
    assert(long_inline(text) == Some(ValueFlag::AfterContext)) by {
        assert(text.subrange(0, 16) == "--after-context="@);
        reveal_strlit("--top-k=");
        assert("--top-k="@[2] != text[2]);
        assert(!"--top-k="@.is_prefix_of(text)) by {
            if "--top-k="@.is_prefix_of(text) {
                assert(text.subrange(0, 8)[2] == text[2]);
            }
        }
        reveal_strlit("--max-candidate-lines=");
        assert("--max-candidate-lines="@[2] != text[2]);
        assert(!"--max-candidate-lines="@.is_prefix_of(text)) by {
            if "--max-candidate-lines="@.is_prefix_of(text) {
                assert(text.subrange(0, 22)[2] == text[2]);
            }
        }
    }
}

/// `--before-context` with a value behind it.
proof fn lemma_before_context_inline(value: Seq<char>)
    ensures
        argument_kind("--before-context="@ + value) == Argument::Inline(ValueFlag::BeforeContext),
{
    let text = "--before-context="@ + value;
    reveal_strlit("--before-context=");
    assert(text[16] == '=');
    assert(switch_written(text) is None && value_flag_written(text) is None) by {
        lemma_lengths();
        lemma_no_equals_sign();
    }
    assert(long_inline(text) == Some(ValueFlag::BeforeContext)) by {
        assert(text.subrange(0, 17) == "--before-context="@);
        reveal_strlit("--top-k=");
        assert("--top-k="@[2] != text[2]);
        assert(!"--top-k="@.is_prefix_of(text)) by {
            if "--top-k="@.is_prefix_of(text) {
                assert(text.subrange(0, 8)[2] == text[2]);
            }
        }
        reveal_strlit("--max-candidate-lines=");
        assert("--max-candidate-lines="@[2] != text[2]);
        assert(!"--max-candidate-lines="@.is_prefix_of(text)) by {
            if "--max-candidate-lines="@.is_prefix_of(text) {
                assert(text.subrange(0, 22)[2] == text[2]);
            }
        }
        reveal_strlit("--after-context=");
        assert("--after-context="@[2] != text[2]);
        assert(!"--after-context="@.is_prefix_of(text)) by {
            if "--after-context="@.is_prefix_of(text) {
                assert(text.subrange(0, 16)[2] == text[2]);
            }
        }
    }
}

/// `--context` with a value behind it.
proof fn lemma_context_inline(value: Seq<char>)
    ensures
        argument_kind("--context="@ + value) == Argument::Inline(ValueFlag::Context),
{
    let text = "--context="@ + value;
    reveal_strlit("--context=");
    assert(text[9] == '=');
    assert(switch_written(text) is None && value_flag_written(text) is None) by {
        lemma_lengths();
        lemma_no_equals_sign();
    }
    assert(long_inline(text) == Some(ValueFlag::Context)) by {
        assert(text.subrange(0, 10) == "--context="@);
        reveal_strlit("--top-k=");
        assert("--top-k="@[2] != text[2]);
        assert(!"--top-k="@.is_prefix_of(text)) by {
            if "--top-k="@.is_prefix_of(text) {
                assert(text.subrange(0, 8)[2] == text[2]);
            }
        }
        reveal_strlit("--max-candidate-lines=");
        assert("--max-candidate-lines="@[2] != text[2]);
        assert(!"--max-candidate-lines="@.is_prefix_of(text)) by {
            if "--max-candidate-lines="@.is_prefix_of(text) {
                assert(text.subrange(0, 22)[2] == text[2]);
            }
        }
        reveal_strlit("--after-context=");
        assert("--after-context="@[2] != text[2]);
        assert(!"--after-context="@.is_prefix_of(text)) by {
            if "--after-context="@.is_prefix_of(text) {
                assert(text.subrange(0, 16)[2] == text[2]);
            }
        }
        reveal_strlit("--before-context=");
        assert("--before-context="@[2] != text[2]);
        assert(!"--before-context="@.is_prefix_of(text)) by {
            if "--before-context="@.is_prefix_of(text) {
                assert(text.subrange(0, 17)[2] == text[2]);
            }
        }
    }
}

/// `--max-snippets` with a value behind it.
proof fn lemma_max_snippets_inline(value: Seq<char>)
    ensures
        argument_kind("--max-snippets="@ + value) == Argument::Inline(ValueFlag::MaxSnippets),
{
    let text = "--max-snippets="@ + value;
    reveal_strlit("--max-snippets=");
    assert(text[14] == '=');
    assert(switch_written(text) is None && value_flag_written(text) is None) by {
        lemma_lengths();
        lemma_no_equals_sign();
    }
    assert(long_inline(text) == Some(ValueFlag::MaxSnippets)) by {
        assert(text.subrange(0, 15) == "--max-snippets="@);
        reveal_strlit("--top-k=");
        assert("--top-k="@[2] != text[2]);
        assert(!"--top-k="@.is_prefix_of(text)) by {
            if "--top-k="@.is_prefix_of(text) {
                assert(text.subrange(0, 8)[2] == text[2]);
            }
        }
        reveal_strlit("--max-candidate-lines=");
        assert("--max-candidate-lines="@[6] != text[6]);
        assert(!"--max-candidate-lines="@.is_prefix_of(text)) by {
            if "--max-candidate-lines="@.is_prefix_of(text) {
                assert(text.subrange(0, 22)[6] == text[6]);
            }
        }
        reveal_strlit("--after-context=");
        assert("--after-context="@[2] != text[2]);
        assert(!"--after-context="@.is_prefix_of(text)) by {
            if "--after-context="@.is_prefix_of(text) {
                assert(text.subrange(0, 16)[2] == text[2]);
            }
        }
        reveal_strlit("--before-context=");
        assert("--before-context="@[2] != text[2]);
        assert(!"--before-context="@.is_prefix_of(text)) by {
            if "--before-context="@.is_prefix_of(text) {
                assert(text.subrange(0, 17)[2] == text[2]);
            }
        }
        reveal_strlit("--context=");
        assert("--context="@[2] != text[2]);
        assert(!"--context="@.is_prefix_of(text)) by {
            if "--context="@.is_prefix_of(text) {
                assert(text.subrange(0, 10)[2] == text[2]);
            }
        }
    }
}

/// `--glob` with a value behind it.
proof fn lemma_glob_inline(value: Seq<char>)
    ensures
        argument_kind("--glob="@ + value) == Argument::Inline(ValueFlag::Glob),
{
    let text = "--glob="@ + value;
    reveal_strlit("--glob=");
    assert(text[6] == '=');
    assert(switch_written(text) is None && value_flag_written(text) is None) by {
        lemma_lengths();
        lemma_no_equals_sign();
    }
    assert(long_inline(text) == Some(ValueFlag::Glob)) by {
        assert(text.subrange(0, 7) == "--glob="@);
        reveal_strlit("--top-k=");
        assert("--top-k="@[2] != text[2]);
        assert(!"--top-k="@.is_prefix_of(text)) by {
            if "--top-k="@.is_prefix_of(text) {
                assert(text.subrange(0, 8)[2] == text[2]);
            }
        }
        reveal_strlit("--max-candidate-lines=");
        assert("--max-candidate-lines="@[2] != text[2]);
        assert(!"--max-candidate-lines="@.is_prefix_of(text)) by {
            if "--max-candidate-lines="@.is_prefix_of(text) {
                assert(text.subrange(0, 22)[2] == text[2]);
            }
        }
        reveal_strlit("--after-context=");
        assert("--after-context="@[2] != text[2]);
        assert(!"--after-context="@.is_prefix_of(text)) by {
            if "--after-context="@.is_prefix_of(text) {
                assert(text.subrange(0, 16)[2] == text[2]);
            }
        }
        reveal_strlit("--before-context=");
        assert("--before-context="@[2] != text[2]);
        assert(!"--before-context="@.is_prefix_of(text)) by {
            if "--before-context="@.is_prefix_of(text) {
                assert(text.subrange(0, 17)[2] == text[2]);
            }
        }
        reveal_strlit("--context=");
        assert("--context="@[2] != text[2]);
        assert(!"--context="@.is_prefix_of(text)) by {
            if "--context="@.is_prefix_of(text) {
                assert(text.subrange(0, 10)[2] == text[2]);
            }
        }
        reveal_strlit("--max-snippets=");
        assert("--max-snippets="@[2] != text[2]);
        assert(!"--max-snippets="@.is_prefix_of(text)) by {
            if "--max-snippets="@.is_prefix_of(text) {
                assert(text.subrange(0, 15)[2] == text[2]);
            }
        }
    }
}

/// `--type` with a value behind it.
proof fn lemma_type_inline(value: Seq<char>)
    ensures
        argument_kind("--type="@ + value) == Argument::Inline(ValueFlag::Type),
{
    let text = "--type="@ + value;
    reveal_strlit("--type=");
    assert(text[6] == '=');
    assert(switch_written(text) is None && value_flag_written(text) is None) by {
        lemma_lengths();
        lemma_no_equals_sign();
    }
    assert(long_inline(text) == Some(ValueFlag::Type)) by {
        assert(text.subrange(0, 7) == "--type="@);
        reveal_strlit("--top-k=");
        assert("--top-k="@[3] != text[3]);
        assert(!"--top-k="@.is_prefix_of(text)) by {
            if "--top-k="@.is_prefix_of(text) {
                assert(text.subrange(0, 8)[3] == text[3]);
            }
        }
        reveal_strlit("--max-candidate-lines=");
        assert("--max-candidate-lines="@[2] != text[2]);
        assert(!"--max-candidate-lines="@.is_prefix_of(text)) by {
            if "--max-candidate-lines="@.is_prefix_of(text) {
                assert(text.subrange(0, 22)[2] == text[2]);
            }
        }
        reveal_strlit("--after-context=");
        assert("--after-context="@[2] != text[2]);
        assert(!"--after-context="@.is_prefix_of(text)) by {
            if "--after-context="@.is_prefix_of(text) {
                assert(text.subrange(0, 16)[2] == text[2]);
            }
        }
        reveal_strlit("--before-context=");
        assert("--before-context="@[2] != text[2]);
        assert(!"--before-context="@.is_prefix_of(text)) by {
            if "--before-context="@.is_prefix_of(text) {
                assert(text.subrange(0, 17)[2] == text[2]);
            }
        }
        reveal_strlit("--context=");
        assert("--context="@[2] != text[2]);
        assert(!"--context="@.is_prefix_of(text)) by {
            if "--context="@.is_prefix_of(text) {
                assert(text.subrange(0, 10)[2] == text[2]);
            }
        }
        reveal_strlit("--max-snippets=");
        assert("--max-snippets="@[2] != text[2]);
        assert(!"--max-snippets="@.is_prefix_of(text)) by {
            if "--max-snippets="@.is_prefix_of(text) {
                assert(text.subrange(0, 15)[2] == text[2]);
            }
        }
        reveal_strlit("--glob=");
        assert("--glob="@[2] != text[2]);
        assert(!"--glob="@.is_prefix_of(text)) by {
            if "--glob="@.is_prefix_of(text) {
                assert(text.subrange(0, 7)[2] == text[2]);
            }
        }
    }
}

/// `--type-not` with a value behind it.
proof fn lemma_type_not_inline(value: Seq<char>)
    ensures
        argument_kind("--type-not="@ + value) == Argument::Inline(ValueFlag::TypeNot),
{
    let text = "--type-not="@ + value;
    reveal_strlit("--type-not=");
    assert(text[10] == '=');
    assert(switch_written(text) is None && value_flag_written(text) is None) by {
        lemma_lengths();
        lemma_no_equals_sign();
    }
    assert(long_inline(text) == Some(ValueFlag::TypeNot)) by {
        assert(text.subrange(0, 11) == "--type-not="@);
        reveal_strlit("--top-k=");
        assert("--top-k="@[3] != text[3]);
        assert(!"--top-k="@.is_prefix_of(text)) by {
            if "--top-k="@.is_prefix_of(text) {
                assert(text.subrange(0, 8)[3] == text[3]);
            }
        }
        reveal_strlit("--max-candidate-lines=");
        assert("--max-candidate-lines="@[2] != text[2]);
        assert(!"--max-candidate-lines="@.is_prefix_of(text)) by {
            if "--max-candidate-lines="@.is_prefix_of(text) {
                assert(text.subrange(0, 22)[2] == text[2]);
            }
        }
        reveal_strlit("--after-context=");
        assert("--after-context="@[2] != text[2]);
        assert(!"--after-context="@.is_prefix_of(text)) by {
            if "--after-context="@.is_prefix_of(text) {
                assert(text.subrange(0, 16)[2] == text[2]);
            }
        }
        reveal_strlit("--before-context=");
        assert("--before-context="@[2] != text[2]);
        assert(!"--before-context="@.is_prefix_of(text)) by {
            if "--before-context="@.is_prefix_of(text) {
                assert(text.subrange(0, 17)[2] == text[2]);
            }
        }
        reveal_strlit("--context=");
        assert("--context="@[2] != text[2]);
        assert(!"--context="@.is_prefix_of(text)) by {
            if "--context="@.is_prefix_of(text) {
                assert(text.subrange(0, 10)[2] == text[2]);
            }
        }
        reveal_strlit("--max-snippets=");
        assert("--max-snippets="@[2] != text[2]);
        assert(!"--max-snippets="@.is_prefix_of(text)) by {
            if "--max-snippets="@.is_prefix_of(text) {
                assert(text.subrange(0, 15)[2] == text[2]);
            }
        }
        reveal_strlit("--glob=");
        assert("--glob="@[2] != text[2]);
        assert(!"--glob="@.is_prefix_of(text)) by {
            if "--glob="@.is_prefix_of(text) {
                assert(text.subrange(0, 7)[2] == text[2]);
            }
        }
        reveal_strlit("--type=");
        assert("--type="@[6] != text[6]);
        assert(!"--type="@.is_prefix_of(text)) by {
            if "--type="@.is_prefix_of(text) {
                assert(text.subrange(0, 7)[6] == text[6]);
            }
        }
    }
}

/// What is longer than two characters and has no hyphen behind the first is no long flag.
proof fn lemma_no_long_flag(text: Seq<char>)
    requires
        text.len() > 2,
        text[1] != '-',
    ensures
        switch_written(text) is None,
        value_flag_written(text) is None,
        long_inline(text) is None,
{
    lemma_lengths();
    lemma_two_hyphens();
    if "--color="@.is_prefix_of(text) {
        assert(text.subrange(0, "--color="@.len() as int)[1] == "--color="@[1]);
    }
    if "--top-k="@.is_prefix_of(text) {
        assert(text.subrange(0, "--top-k="@.len() as int)[1] == "--top-k="@[1]);
    }
    if "--max-candidate-lines="@.is_prefix_of(text) {
        assert(text.subrange(0, "--max-candidate-lines="@.len() as int)[1] == "--max-candidate-lines="@[1]);
    }
    if "--after-context="@.is_prefix_of(text) {
        assert(text.subrange(0, "--after-context="@.len() as int)[1] == "--after-context="@[1]);
    }
    if "--before-context="@.is_prefix_of(text) {
        assert(text.subrange(0, "--before-context="@.len() as int)[1] == "--before-context="@[1]);
    }
    if "--context="@.is_prefix_of(text) {
        assert(text.subrange(0, "--context="@.len() as int)[1] == "--context="@[1]);
    }
    if "--max-snippets="@.is_prefix_of(text) {
        assert(text.subrange(0, "--max-snippets="@.len() as int)[1] == "--max-snippets="@[1]);
    }
    if "--glob="@.is_prefix_of(text) {
        assert(text.subrange(0, "--glob="@.len() as int)[1] == "--glob="@[1]);
    }
    if "--type="@.is_prefix_of(text) {
        assert(text.subrange(0, "--type="@.len() as int)[1] == "--type="@[1]);
    }
    if "--type-not="@.is_prefix_of(text) {
        assert(text.subrange(0, "--type-not="@.len() as int)[1] == "--type-not="@[1]);
    }
}

/// Long flags begin with two hyphens.
proof fn lemma_two_hyphens()
    ensures
        "--help"@.len() > 2 && "--help"@[1] == '-',
        "--version"@.len() > 2 && "--version"@[1] == '-',
        "--files"@.len() > 2 && "--files"@[1] == '-',
        "--debug"@.len() > 2 && "--debug"@[1] == '-',
        "--fixed-strings"@.len() > 2 && "--fixed-strings"@[1] == '-',
        "--ignore-case"@.len() > 2 && "--ignore-case"@[1] == '-',
        "--case-sensitive"@.len() > 2 && "--case-sensitive"@[1] == '-',
        "--smart-case"@.len() > 2 && "--smart-case"@[1] == '-',
        "--column"@.len() > 2 && "--column"@[1] == '-',
        "--heading"@.len() > 2 && "--heading"@[1] == '-',
        "--no-heading"@.len() > 2 && "--no-heading"@[1] == '-',
        "--json"@.len() > 2 && "--json"@[1] == '-',
        "--ranked"@.len() > 2 && "--ranked"@[1] == '-',
        "--all"@.len() > 2 && "--all"@[1] == '-',
        "--word-regexp"@.len() > 2 && "--word-regexp"@[1] == '-',
        "--line-regexp"@.len() > 2 && "--line-regexp"@[1] == '-',
        "--files-with-matches"@.len() > 2 && "--files-with-matches"@[1] == '-',
        "--files-without-match"@.len() > 2 && "--files-without-match"@[1] == '-',
        "--count"@.len() > 2 && "--count"@[1] == '-',
        "--hidden"@.len() > 2 && "--hidden"@[1] == '-',
        "--no-ignore"@.len() > 2 && "--no-ignore"@[1] == '-',
        "--follow"@.len() > 2 && "--follow"@[1] == '-',
        "--follow-links"@.len() > 2 && "--follow-links"@[1] == '-',
        "--color"@.len() > 2 && "--color"@[1] == '-',
        "--top-k"@.len() > 2 && "--top-k"@[1] == '-',
        "--max-candidate-lines"@.len() > 2 && "--max-candidate-lines"@[1] == '-',
        "--after-context"@.len() > 2 && "--after-context"@[1] == '-',
        "--before-context"@.len() > 2 && "--before-context"@[1] == '-',
        "--context"@.len() > 2 && "--context"@[1] == '-',
        "--max-snippets"@.len() > 2 && "--max-snippets"@[1] == '-',
        "--glob"@.len() > 2 && "--glob"@[1] == '-',
        "--type"@.len() > 2 && "--type"@[1] == '-',
        "--type-not"@.len() > 2 && "--type-not"@[1] == '-',
        "--color="@.len() > 2 && "--color="@[1] == '-',
        "--top-k="@.len() > 2 && "--top-k="@[1] == '-',
        "--max-candidate-lines="@.len() > 2 && "--max-candidate-lines="@[1] == '-',
        "--after-context="@.len() > 2 && "--after-context="@[1] == '-',
        "--before-context="@.len() > 2 && "--before-context="@[1] == '-',
        "--context="@.len() > 2 && "--context="@[1] == '-',
        "--max-snippets="@.len() > 2 && "--max-snippets="@[1] == '-',
        "--glob="@.len() > 2 && "--glob="@[1] == '-',
        "--type="@.len() > 2 && "--type="@[1] == '-',
        "--type-not="@.len() > 2 && "--type-not="@[1] == '-',
{
    reveal_strlit("--help");
    reveal_strlit("--version");
    reveal_strlit("--files");
    reveal_strlit("--debug");
    reveal_strlit("--fixed-strings");
    reveal_strlit("--ignore-case");
    reveal_strlit("--case-sensitive");
    reveal_strlit("--smart-case");
    reveal_strlit("--column");
    reveal_strlit("--heading");
    reveal_strlit("--no-heading");
    reveal_strlit("--json");
    reveal_strlit("--ranked");
    reveal_strlit("--all");
    reveal_strlit("--word-regexp");
    reveal_strlit("--line-regexp");
    reveal_strlit("--files-with-matches");
    reveal_strlit("--files-without-match");
    reveal_strlit("--count");
    reveal_strlit("--hidden");
    reveal_strlit("--no-ignore");
    reveal_strlit("--follow");
    reveal_strlit("--follow-links");
    reveal_strlit("--color");
    reveal_strlit("--top-k");
    reveal_strlit("--max-candidate-lines");
    reveal_strlit("--after-context");
    reveal_strlit("--before-context");
    reveal_strlit("--context");
    reveal_strlit("--max-snippets");
    reveal_strlit("--glob");
    reveal_strlit("--type");
    reveal_strlit("--type-not");
    reveal_strlit("--color=");
    reveal_strlit("--top-k=");
    reveal_strlit("--max-candidate-lines=");
    reveal_strlit("--after-context=");
    reveal_strlit("--before-context=");
    reveal_strlit("--context=");
    reveal_strlit("--max-snippets=");
    reveal_strlit("--glob=");
    reveal_strlit("--type=");
    reveal_strlit("--type-not=");
}

/// A long flag with its value behind an equals sign is read with this value.
pub proof fn values_stand_behind_an_equals_sign(value: Seq<char>)
    ensures
        argument_kind("--color="@ + value) == Argument::Inline(ValueFlag::Color),
        argument_kind("--top-k="@ + value) == Argument::Inline(ValueFlag::TopK),
        argument_kind("--max-candidate-lines="@ + value) == Argument::Inline(ValueFlag::MaxCandidateLines),
        argument_kind("--after-context="@ + value) == Argument::Inline(ValueFlag::AfterContext),
        argument_kind("--before-context="@ + value) == Argument::Inline(ValueFlag::BeforeContext),
        argument_kind("--context="@ + value) == Argument::Inline(ValueFlag::Context),
        argument_kind("--max-snippets="@ + value) == Argument::Inline(ValueFlag::MaxSnippets),
        argument_kind("--glob="@ + value) == Argument::Inline(ValueFlag::Glob),
        argument_kind("--type="@ + value) == Argument::Inline(ValueFlag::Type),
        argument_kind("--type-not="@ + value) == Argument::Inline(ValueFlag::TypeNot),
{
    lemma_color_inline(value);
    lemma_top_k_inline(value);
    lemma_max_candidate_lines_inline(value);
    lemma_after_context_inline(value);
    lemma_before_context_inline(value);
    lemma_context_inline(value);
    lemma_max_snippets_inline(value);
    lemma_glob_inline(value);
    lemma_type_inline(value);
    lemma_type_not_inline(value);
}

/// A short flag with its value directly behind it is read with this value.
pub proof fn values_stand_behind_short_flags(value: Seq<char>)
    requires
        value.len() > 0,
    ensures
        argument_kind("-A"@ + value) == Argument::ShortInline(ValueFlag::AfterContext),
        argument_kind("-B"@ + value) == Argument::ShortInline(ValueFlag::BeforeContext),
        argument_kind("-C"@ + value) == Argument::ShortInline(ValueFlag::Context),
        argument_kind("-g"@ + value) == Argument::ShortInline(ValueFlag::Glob),
        argument_kind("-t"@ + value) == Argument::ShortInline(ValueFlag::Type),
        argument_kind("-T"@ + value) == Argument::ShortInline(ValueFlag::TypeNot),
{
    assert(argument_kind("-A"@ + value) == Argument::ShortInline(ValueFlag::AfterContext)) by {
        reveal_strlit("-A");
        let text = "-A"@ + value;
        assert(text[1] == 'A');
        lemma_no_long_flag(text);
        assert(text.subrange(0, 2) == "-A"@);
    }
    assert(argument_kind("-B"@ + value) == Argument::ShortInline(ValueFlag::BeforeContext)) by {
        reveal_strlit("-B");
        let text = "-B"@ + value;
        assert(text[1] == 'B');
        lemma_no_long_flag(text);
        assert(text.subrange(0, 2) == "-B"@);
        reveal_strlit("-A");
        assert(!"-A"@.is_prefix_of(text)) by {
            if "-A"@.is_prefix_of(text) {
                assert(text.subrange(0, 2)[1] == "-A"@[1]);
            }
        }
    }
    assert(argument_kind("-C"@ + value) == Argument::ShortInline(ValueFlag::Context)) by {
        reveal_strlit("-C");
        let text = "-C"@ + value;
        assert(text[1] == 'C');
        lemma_no_long_flag(text);
        assert(text.subrange(0, 2) == "-C"@);
        reveal_strlit("-A");
        assert(!"-A"@.is_prefix_of(text)) by {
            if "-A"@.is_prefix_of(text) {
                assert(text.subrange(0, 2)[1] == "-A"@[1]);
            }
        }
        reveal_strlit("-B");
        assert(!"-B"@.is_prefix_of(text)) by {
            if "-B"@.is_prefix_of(text) {
                assert(text.subrange(0, 2)[1] == "-B"@[1]);
            }
        }
    }
    assert(argument_kind("-g"@ + value) == Argument::ShortInline(ValueFlag::Glob)) by {
        reveal_strlit("-g");
        let text = "-g"@ + value;
        assert(text[1] == 'g');
        lemma_no_long_flag(text);
        assert(text.subrange(0, 2) == "-g"@);
        reveal_strlit("-A");
        assert(!"-A"@.is_prefix_of(text)) by {
            if "-A"@.is_prefix_of(text) {
                assert(text.subrange(0, 2)[1] == "-A"@[1]);
            }
        }
        reveal_strlit("-B");
        assert(!"-B"@.is_prefix_of(text)) by {
            if "-B"@.is_prefix_of(text) {
                assert(text.subrange(0, 2)[1] == "-B"@[1]);
            }
        }
        reveal_strlit("-C");
        assert(!"-C"@.is_prefix_of(text)) by {
            if "-C"@.is_prefix_of(text) {
                assert(text.subrange(0, 2)[1] == "-C"@[1]);
            }
        }
    }
    assert(argument_kind("-t"@ + value) == Argument::ShortInline(ValueFlag::Type)) by {
        reveal_strlit("-t");
        let text = "-t"@ + value;
        assert(text[1] == 't');
        lemma_no_long_flag(text);
        assert(text.subrange(0, 2) == "-t"@);
        reveal_strlit("-A");
        assert(!"-A"@.is_prefix_of(text)) by {
            if "-A"@.is_prefix_of(text) {
                assert(text.subrange(0, 2)[1] == "-A"@[1]);
            }
        }
        reveal_strlit("-B");
        assert(!"-B"@.is_prefix_of(text)) by {
            if "-B"@.is_prefix_of(text) {
                assert(text.subrange(0, 2)[1] == "-B"@[1]);
            }
        }
        reveal_strlit("-C");
        assert(!"-C"@.is_prefix_of(text)) by {
            if "-C"@.is_prefix_of(text) {
                assert(text.subrange(0, 2)[1] == "-C"@[1]);
            }
        }
        reveal_strlit("-g");
        assert(!"-g"@.is_prefix_of(text)) by {
            if "-g"@.is_prefix_of(text) {
                assert(text.subrange(0, 2)[1] == "-g"@[1]);
            }
        }
    }
    assert(argument_kind("-T"@ + value) == Argument::ShortInline(ValueFlag::TypeNot)) by {
        reveal_strlit("-T");
        let text = "-T"@ + value;
        assert(text[1] == 'T');
        lemma_no_long_flag(text);
        assert(text.subrange(0, 2) == "-T"@);
        reveal_strlit("-A");
        assert(!"-A"@.is_prefix_of(text)) by {
            if "-A"@.is_prefix_of(text) {
                assert(text.subrange(0, 2)[1] == "-A"@[1]);
            }
        }
        reveal_strlit("-B");
        assert(!"-B"@.is_prefix_of(text)) by {
            if "-B"@.is_prefix_of(text) {
                assert(text.subrange(0, 2)[1] == "-B"@[1]);
            }
        }
        reveal_strlit("-C");
        assert(!"-C"@.is_prefix_of(text)) by {
            if "-C"@.is_prefix_of(text) {
                assert(text.subrange(0, 2)[1] == "-C"@[1]);
            }
        }
        reveal_strlit("-g");
        assert(!"-g"@.is_prefix_of(text)) by {
            if "-g"@.is_prefix_of(text) {
                assert(text.subrange(0, 2)[1] == "-g"@[1]);
            }
        }
        reveal_strlit("-t");
        assert(!"-t"@.is_prefix_of(text)) by {
            if "-t"@.is_prefix_of(text) {
                assert(text.subrange(0, 2)[1] == "-t"@[1]);
            }
        }
    }
}

/// A flag with its value in one argument does what the flag does with the value behind it; a value
/// that will not do is told with the beginning of the argument.
pub proof fn values_in_one_argument_are_taken(
    cli: CliView,
    positionals: Seq<Seq<char>>,
    flag: ValueFlag,
    value: Seq<char>,
    rest: Seq<Seq<char>>,
)
    ensures
        argument_kind(long_prefix(flag) + value) == Argument::Inline(flag) ==> parsed_from(
            cli,
            positionals,
            seq![long_prefix(flag) + value] + rest,
        ) == match with_value(cli, flag, value, long_prefix(flag)) {
            Ok(next) => parsed_from(next, positionals, rest),
            Err(message) => Err(message),
        },
        short_prefix(flag) matches Some(prefix) ==> argument_kind(prefix + value)
            == Argument::ShortInline(flag) ==> parsed_from(
            cli,
            positionals,
            seq![prefix + value] + rest,
        ) == match with_value(cli, flag, value, prefix) {
            Ok(next) => parsed_from(next, positionals, rest),
            Err(message) => Err(message),
        },
{
    let prefix = long_prefix(flag);
    let argument = prefix + value;
    let one = seq![argument] + rest;
    assert(one[0] == argument);
    assert(one.drop_first() == rest);
    assert(argument.skip(prefix.len() as int) == value);
    if short_prefix(flag) is Some {
        let short = short_prefix(flag)->0;
        let other = short + value;
        let two = seq![other] + rest;
        assert(two[0] == other);
        assert(two.drop_first() == rest);
        assert(other.skip(short.len() as int) == value);
    }
}

} // verus!
