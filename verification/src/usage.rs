//! What holds of every command line.

use vstd::prelude::*;

use crate::cli::{
    argument_kind, defaults, long_inline, long_prefix, parsed, parsed_from, short_inline,
    short_prefix, switch_written, value_flag_written, with_number, with_positionals,
    with_switch, with_value, Argument, CliView, ParseOutcomeView, ValueFlag,
};
use crate::text::{blank, size_value};

verus! {

/// What a command line that asks for something comes to: there is somewhere to search, a query that
/// is not blank unless files are listed, and no lines around matches unless a flag asks for them.
pub open spec fn sound(cli: CliView) -> bool {
    &&& cli.roots.len() > 0
    &&& cli.files_mode ==> cli.query is None
    &&& !cli.files_mode ==> cli.query is Some && !blank(cli.query->0)
    &&& !cli.context_explicit ==> cli.before_context == 0 && cli.after_context == 0
}

/// Whether lines around matches are asked for only where a flag does.
pub open spec fn context_sound(cli: CliView) -> bool {
    !cli.context_explicit ==> cli.before_context == 0 && cli.after_context == 0
}

/// Reading on keeps what was sound.
proof fn lemma_parsed_from_is_sound(
    cli: CliView,
    positionals: Seq<Seq<char>>,
    arguments: Seq<Seq<char>>,
)
    requires
        context_sound(cli),
    ensures
        match parsed_from(cli, positionals, arguments) {
            Ok(ParseOutcomeView::Cli(cli)) => sound(cli),
            _ => true,
        },
    decreases arguments.len(),
{
    if arguments.len() > 0 {
        let argument = arguments[0];
        let rest = arguments.drop_first();
        match argument_kind(argument) {
            Argument::Switch(switch) => {
                lemma_parsed_from_is_sound(
                    with_switch(cli, switch),
                    positionals,
                    rest,
                );
            },
            Argument::Separate(flag) => {
                if rest.len() > 0 {
                    if let Ok(next) = with_value(cli, flag, rest[0], argument) {
                        lemma_parsed_from_is_sound(next, positionals, rest.drop_first());
                    }
                }
            },
            Argument::Inline(flag) => {
                let prefix = long_prefix(flag);
                if let Ok(next) = with_value(
                    cli,
                    flag,
                    argument.skip(prefix.len() as int),
                    prefix,
                ) {
                    lemma_parsed_from_is_sound(next, positionals, rest);
                }
            },
            Argument::ShortInline(flag) => {
                let prefix = short_prefix(flag)->0;
                if let Ok(next) = with_value(
                    cli,
                    flag,
                    argument.skip(prefix.len() as int),
                    prefix,
                ) {
                    lemma_parsed_from_is_sound(next, positionals, rest);
                }
            },
            Argument::Positional => {
                lemma_parsed_from_is_sound(cli, positionals.push(argument), rest);
            },
            _ => {},
        }
    }
}

/// Every command line that is read comes to something sound: there is somewhere to search, a query
/// that is not blank unless files are listed, and no lines around matches unless a flag asks for
/// them.
pub proof fn command_lines_are_sound(arguments: Seq<Seq<char>>)
    ensures
        match parsed(arguments) {
            Ok(ParseOutcomeView::Cli(cli)) => sound(cli),
            _ => true,
        },
{
    lemma_parsed_from_is_sound(defaults(), Seq::empty(), arguments);
}

/// What stands behind `--` is never read as a flag.
pub proof fn nothing_behind_the_separator_is_a_flag(
    cli: CliView,
    positionals: Seq<Seq<char>>,
    rest: Seq<Seq<char>>,
)
    ensures
        parsed_from(cli, positionals, seq!["--"@] + rest) == with_positionals(
            cli,
            positionals + rest,
        ),
{
    lemma_separator();
    let arguments = seq!["--"@] + rest;
    assert(arguments[0] == "--"@);
    assert(arguments.drop_first() == rest);
}

/// `--` is the separator.
proof fn lemma_separator()
    ensures
        argument_kind("--"@) == Argument::Separator,
{
    reveal_strlit("--");
    lemma_two_characters("--"@, '-');
    reveal_strlit("-A");
    reveal_strlit("-B");
    reveal_strlit("-C");
    reveal_strlit("-g");
    reveal_strlit("-t");
    reveal_strlit("-T");
    assert("-A"@[1] == 'A' && "-B"@[1] == 'B' && "-C"@[1] == 'C');
    assert("-g"@[1] == 'g' && "-t"@[1] == 't' && "-T"@[1] == 'T');
    assert(short_inline("--"@) is None);
}

/// A dash and a character that no flag without a value has are no such flag, and begin no flag with
/// an equals sign.
proof fn lemma_two_characters(text: Seq<char>, second: char)
    requires
        text.len() == 2,
        text[0] == '-',
        text[1] == second,
        second == '-' || second == 'A' || second == 'B' || second == 'C',
    ensures
        switch_written(text) is None,
        long_inline(text) is None,
        value_flag_written(text) == if second == 'A' {
            Some(ValueFlag::AfterContext)
        } else if second == 'B' {
            Some(ValueFlag::BeforeContext)
        } else if second == 'C' {
            Some(ValueFlag::Context)
        } else {
            None
        },
{
    reveal_strlit("-h");
    reveal_strlit("--help");
    reveal_strlit("-v");
    reveal_strlit("--version");
    reveal_strlit("--files");
    reveal_strlit("--debug");
    reveal_strlit("-F");
    reveal_strlit("--fixed-strings");
    reveal_strlit("-i");
    reveal_strlit("--ignore-case");
    reveal_strlit("-s");
    reveal_strlit("--case-sensitive");
    reveal_strlit("-S");
    reveal_strlit("--smart-case");
    reveal_strlit("-n");
    reveal_strlit("--column");
    reveal_strlit("--heading");
    reveal_strlit("--no-heading");
    reveal_strlit("--json");
    reveal_strlit("--ranked");
    reveal_strlit("--all");
    reveal_strlit("-w");
    reveal_strlit("--word-regexp");
    reveal_strlit("-x");
    reveal_strlit("--line-regexp");
    reveal_strlit("-l");
    reveal_strlit("--files-with-matches");
    reveal_strlit("--files-without-match");
    reveal_strlit("-c");
    reveal_strlit("--count");
    reveal_strlit("--hidden");
    reveal_strlit("--no-ignore");
    reveal_strlit("-L");
    reveal_strlit("--follow");
    reveal_strlit("--follow-links");
    assert("-h"@[1] == 'h' && "-v"@[1] == 'v' && "-F"@[1] == 'F' && "-i"@[1] == 'i');
    assert("-s"@[1] == 's' && "-S"@[1] == 'S' && "-n"@[1] == 'n' && "-w"@[1] == 'w');
    assert("-x"@[1] == 'x' && "-l"@[1] == 'l' && "-c"@[1] == 'c' && "-L"@[1] == 'L');
    reveal_strlit("--color");
    reveal_strlit("-k");
    reveal_strlit("--top-k");
    reveal_strlit("-m");
    reveal_strlit("--max-candidate-lines");
    reveal_strlit("-A");
    reveal_strlit("--after-context");
    reveal_strlit("-B");
    reveal_strlit("--before-context");
    reveal_strlit("-C");
    reveal_strlit("--context");
    reveal_strlit("--max-snippets");
    reveal_strlit("-g");
    reveal_strlit("--glob");
    reveal_strlit("-t");
    reveal_strlit("--type");
    reveal_strlit("-T");
    reveal_strlit("--type-not");
    assert("-k"@[1] == 'k' && "-m"@[1] == 'm' && "-g"@[1] == 'g' && "-t"@[1] == 't');
    assert("-T"@[1] == 'T');
    assert(second == 'A' ==> text == "-A"@);
    assert(second == 'B' ==> text == "-B"@);
    assert(second == 'C' ==> text == "-C"@);
    assert("-A"@[1] == 'A' && "-B"@[1] == 'B' && "-C"@[1] == 'C');
    reveal_strlit("--color=");
    reveal_strlit("--top-k=");
    reveal_strlit("--max-candidate-lines=");
    reveal_strlit("--after-context=");
    reveal_strlit("--before-context=");
    reveal_strlit("--context=");
    reveal_strlit("--max-snippets=");
    reveal_strlit("--glob=");
    reveal_strlit("--type=");
    reveal_strlit("--type-not=");
}

/// `-C` is the same as `-A` and `-B` with the same number.
pub proof fn context_is_before_and_after(
    cli: CliView,
    positionals: Seq<Seq<char>>,
    number: Seq<char>,
    rest: Seq<Seq<char>>,
)
    requires
        size_value(number) is Some,
    ensures
        parsed_from(cli, positionals, seq!["-C"@, number] + rest) == parsed_from(
            cli,
            positionals,
            seq!["-A"@, number, "-B"@, number] + rest,
        ),
{
    reveal_strlit("-A");
    reveal_strlit("-B");
    reveal_strlit("-C");
    lemma_two_characters("-A"@, 'A');
    lemma_two_characters("-B"@, 'B');
    lemma_two_characters("-C"@, 'C');
    let both = seq!["-C"@, number] + rest;
    assert(both[0] == "-C"@ && both.drop_first()[0] == number);
    assert(both.drop_first().drop_first() == rest);
    let each = seq!["-A"@, number, "-B"@, number] + rest;
    let after = each.drop_first().drop_first();
    assert(each[0] == "-A"@ && each.drop_first()[0] == number);
    assert(after == seq!["-B"@, number] + rest);
    assert(after[0] == "-B"@ && after.drop_first()[0] == number);
    assert(after.drop_first().drop_first() == rest);
    let value = size_value(number)->0;
    let with_after = with_number(cli, ValueFlag::AfterContext, value);
    let with_both = with_number(with_after, ValueFlag::BeforeContext, value);
    assert(with_both == with_number(cli, ValueFlag::Context, value));
    assert(parsed_from(cli, positionals, both) == parsed_from(with_both, positionals, rest));
    assert(parsed_from(cli, positionals, each) == parsed_from(with_after, positionals, after));
    assert(parsed_from(with_after, positionals, after) == parsed_from(
        with_both,
        positionals,
        rest,
    ));
}

} // verus!
