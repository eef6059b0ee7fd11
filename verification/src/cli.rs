//! The command line: its flags, and what they ask for.

use vstd::prelude::*;

use crate::text::{
    begins_with, blank, error_text, is_blank, parse_size, result_text, same_text, size_value,
    strip_prefix, texts,
};

verus! {

/// Ranked files printed where no number is asked for.
pub const DEFAULT_TOP_K: usize = 5;

/// Matched lines collected before ranking where no number is asked for.
pub const DEFAULT_MAX_CANDIDATE_LINES: usize = 500;

/// Lines of context around a ranked snippet where none are asked for.
pub const DEFAULT_CONTEXT_LINES: usize = 2;

/// Snippets printed for a ranked file where no number is asked for.
pub const DEFAULT_MAX_SNIPPETS: usize = 3;

/// The program's name and version.
pub const VERSION_TEXT: &'static str = "rgrank 0.1.0";

/// What the program is, in a few words.
pub const HELP_SUMMARY: &'static str = "ripgrep-style search with file-level ranking";

/// The usage, the flags and the behaviour, as printed by `--help`.
pub const HELP_BODY: &'static str = r#"Usage:
  rgrank [options] <query> [path ...]
  rgrank --files [options] [path ...]

Options:
      --files                 List matching file paths only
      --debug                 Show debug warnings for files that could not be searched
  -F, --fixed-strings         Treat the query as literal ranked terms instead of a regex
  -i, --ignore-case           Force case insensitive matching
  -s, --case-sensitive        Force case sensitive matching
  -S, --smart-case            Use smart case matching
  -k, --top-k <n>             Number of ranked files to print (default: 5)
  -m, --max-candidate-lines <n>
                              Global cap on matched lines collected before ranking (default: 500)
  -A, --after-context <n>     Lines shown after each hit
  -B, --before-context <n>    Lines shown before each hit
  -C, --context <n>           Lines shown before and after each hit
      --max-snippets <n>      Snippets shown per ranked file (default: 3)
  -g, --glob <pattern>        Include or exclude files using rg-style globs
  -t, --type <type>           Only search files of the given type
  -T, --type-not <type>       Exclude files of the given type
  -n                          Show line numbers in standard output
      --column                Show the first match column in standard output
      --heading               Group matches under file headings
      --no-heading            Disable grouped file headings
      --json                  Emit JSON lines for matches
      --color <when>          Colorize output: auto, always, never
      --ranked                Use ranked output instead of rg-style output
      --all                   In ranked mode, show all ranked files and snippets
  -w, --word-regexp           Match whole words only
  -x, --line-regexp           Match whole lines only
  -l, --files-with-matches    Print only files that contain matches
      --files-without-match   Print only files that do not contain matches
  -c, --count                 Print match counts per matching file
      --hidden                Include hidden files and directories
      --no-ignore             Disable .gitignore/.ignore filtering
  -L, --follow                Follow symbolic links
      --follow-links          Follow symbolic links
  -h, --help                  Show this help
  -v, --version               Show version

Behavior:
  - Uses ripgrep-style regex matching by default.
  - Use -F/--fixed-strings for literal term matching.
  - Standard rg-style output is the default.
  - Use --ranked for ranked file/snippet output.
  - Standard output defaults to zero context; ranked snippets default to 2 lines before/after.
  - Respects .gitignore/.ignore by default.
  - Ranks files with BM25-like scoring, term coverage, filename boosts, and phrase/proximity bonuses.
"#;

/// How the query is read.
#[derive(Debug, Clone, Copy, PartialEq, Eq, Structural)]
pub enum MatchMode {
    /// A regular expression.
    Regex,
    /// Literal terms.
    FixedStrings,
}

/// How letter case is treated.
#[derive(Debug, Clone, Copy, PartialEq, Eq, Structural)]
pub enum CaseMode {
    /// Case counts where the query holds an upper-case letter.
    Smart,
    /// Case counts.
    Sensitive,
    /// Case does not count.
    Insensitive,
}

/// What a search prints.
#[derive(Debug, Clone, Copy, PartialEq, Eq, Structural)]
pub enum SearchOutputMode {
    /// Matching lines.
    Standard,
    /// Ranked files with snippets.
    Ranked,
    /// Files that match.
    FilesWithMatches,
    /// Files that do not match.
    FilesWithoutMatch,
    /// Matching lines per file.
    Count,
    /// A stream of JSON events.
    Json,
}

/// When matches are coloured.
#[derive(Debug, Clone, Copy, PartialEq, Eq, Structural)]
pub enum ColorMode {
    /// When printing to a terminal.
    Auto,
    /// Always.
    Always,
    /// Never.
    Never,
}

/// What the command line asks for.
#[derive(Debug, Clone)]
pub struct Cli {
    /// What to search for; nothing when only files are listed.
    pub query: Option<String>,
    /// Where to search.
    pub roots: Vec<String>,
    /// List files and search nothing.
    pub files_mode: bool,
    /// Tell of files that could not be searched.
    pub debug: bool,
    /// How the query is read.
    pub match_mode: MatchMode,
    /// How letter case is treated.
    pub case_mode: CaseMode,
    /// What is printed.
    pub output_mode: SearchOutputMode,
    /// Print every ranked file and snippet.
    pub show_all: bool,
    /// Ranked files to print.
    pub top_k: usize,
    /// Matched lines to collect before ranking.
    pub max_candidate_lines: usize,
    /// Lines shown before a hit.
    pub before_context: usize,
    /// Lines shown after a hit.
    pub after_context: usize,
    /// Whether a context flag was given.
    pub context_explicit: bool,
    /// Snippets to print for a ranked file.
    pub max_snippets: usize,
    /// Globs that files have to meet.
    pub globs: Vec<String>,
    /// File types to search.
    pub type_names: Vec<String>,
    /// File types to leave out.
    pub type_not_names: Vec<String>,
    /// Print line numbers.
    pub line_numbers: bool,
    /// Print the column of the first match.
    pub show_column: bool,
    /// Group matches under their file.
    pub heading: bool,
    /// When matches are coloured.
    pub color_mode: ColorMode,
    /// Match whole words.
    pub word_regexp: bool,
    /// Match whole lines.
    pub line_regexp: bool,
    /// Search hidden files.
    pub hidden: bool,
    /// Search ignored files.
    pub no_ignore: bool,
    /// Follow symbolic links.
    pub follow_links: bool,
}

/// What the command line asks for, with texts as sequences of characters.
pub ghost struct CliView {
    pub query: Option<Seq<char>>,
    pub roots: Seq<Seq<char>>,
    pub files_mode: bool,
    pub debug: bool,
    pub match_mode: MatchMode,
    pub case_mode: CaseMode,
    pub output_mode: SearchOutputMode,
    pub show_all: bool,
    pub top_k: usize,
    pub max_candidate_lines: usize,
    pub before_context: usize,
    pub after_context: usize,
    pub context_explicit: bool,
    pub max_snippets: usize,
    pub globs: Seq<Seq<char>>,
    pub type_names: Seq<Seq<char>>,
    pub type_not_names: Seq<Seq<char>>,
    pub line_numbers: bool,
    pub show_column: bool,
    pub heading: bool,
    pub color_mode: ColorMode,
    pub word_regexp: bool,
    pub line_regexp: bool,
    pub hidden: bool,
    pub no_ignore: bool,
    pub follow_links: bool,
}

impl View for Cli {
    type V = CliView;

    open spec fn view(&self) -> CliView {
        CliView {
            query: match self.query {
                Some(text) => Some(text@),
                None => None,
            },
            roots: texts(self.roots@),
            files_mode: self.files_mode,
            debug: self.debug,
            match_mode: self.match_mode,
            case_mode: self.case_mode,
            output_mode: self.output_mode,
            show_all: self.show_all,
            top_k: self.top_k,
            max_candidate_lines: self.max_candidate_lines,
            before_context: self.before_context,
            after_context: self.after_context,
            context_explicit: self.context_explicit,
            max_snippets: self.max_snippets,
            globs: texts(self.globs@),
            type_names: texts(self.type_names@),
            type_not_names: texts(self.type_not_names@),
            line_numbers: self.line_numbers,
            show_column: self.show_column,
            heading: self.heading,
            color_mode: self.color_mode,
            word_regexp: self.word_regexp,
            line_regexp: self.line_regexp,
            hidden: self.hidden,
            no_ignore: self.no_ignore,
            follow_links: self.follow_links,
        }
    }
}

/// What reading the command line comes to.
pub enum ParseOutcome {
    /// Something to do.
    Cli(Cli),
    /// The help was asked for.
    Help,
    /// The version was asked for.
    Version,
}

/// What reading the command line comes to, with texts as sequences of characters.
pub ghost enum ParseOutcomeView {
    Cli(CliView),
    Help,
    Version,
}

impl View for ParseOutcome {
    type V = ParseOutcomeView;

    open spec fn view(&self) -> ParseOutcomeView {
        match self {
            ParseOutcome::Cli(cli) => ParseOutcomeView::Cli(cli@),
            ParseOutcome::Help => ParseOutcomeView::Help,
            ParseOutcome::Version => ParseOutcomeView::Version,
        }
    }
}

/// A flag that takes no value.
#[derive(Debug, Clone, Copy, PartialEq, Eq, Structural)]
pub enum Switch {
    /// `-h`, `--help`
    Help,
    /// `-v`, `--version`
    Version,
    /// `--files`
    Files,
    /// `--debug`
    Debug,
    /// `-F`, `--fixed-strings`
    FixedStrings,
    /// `-i`, `--ignore-case`
    IgnoreCase,
    /// `-s`, `--case-sensitive`
    CaseSensitive,
    /// `-S`, `--smart-case`
    SmartCase,
    /// `-n`
    LineNumbers,
    /// `--column`
    Column,
    /// `--heading`
    Heading,
    /// `--no-heading`
    NoHeading,
    /// `--json`
    Json,
    /// `--ranked`
    Ranked,
    /// `--all`
    All,
    /// `-w`, `--word-regexp`
    WordRegexp,
    /// `-x`, `--line-regexp`
    LineRegexp,
    /// `-l`, `--files-with-matches`
    FilesWithMatches,
    /// `--files-without-match`
    FilesWithoutMatch,
    /// `-c`, `--count`
    Count,
    /// `--hidden`
    Hidden,
    /// `--no-ignore`
    NoIgnore,
    /// `-L`, `--follow`, `--follow-links`
    Follow,
}

/// A flag that takes a value.
#[derive(Debug, Clone, Copy, PartialEq, Eq, Structural)]
pub enum ValueFlag {
    /// `--color`
    Color,
    /// `-k`, `--top-k`
    TopK,
    /// `-m`, `--max-candidate-lines`
    MaxCandidateLines,
    /// `-A`, `--after-context`
    AfterContext,
    /// `-B`, `--before-context`
    BeforeContext,
    /// `-C`, `--context`
    Context,
    /// `--max-snippets`
    MaxSnippets,
    /// `-g`, `--glob`
    Glob,
    /// `-t`, `--type`
    Type,
    /// `-T`, `--type-not`
    TypeNot,
}

/// What one argument is.
#[derive(Debug, Clone, Copy, PartialEq, Eq, Structural)]
pub enum Argument {
    /// A flag without a value.
    Switch(Switch),
    /// A flag whose value is the next argument.
    Separate(ValueFlag),
    /// A long flag with its value behind an equals sign.
    Inline(ValueFlag),
    /// A short flag with its value directly behind it.
    ShortInline(ValueFlag),
    /// `--`: everything behind it is positional.
    Separator,
    /// Something that begins with a hyphen and is no flag.
    Unknown,
    /// A query or a path.
    Positional,
}

/// The flag without a value that is written `text`.
pub open spec fn switch_written(text: Seq<char>) -> Option<Switch> {
    if text == "-h"@ || text == "--help"@ {
        Some(Switch::Help)
    } else if text == "-v"@ || text == "--version"@ {
        Some(Switch::Version)
    } else if text == "--files"@ {
        Some(Switch::Files)
    } else if text == "--debug"@ {
        Some(Switch::Debug)
    } else if text == "-F"@ || text == "--fixed-strings"@ {
        Some(Switch::FixedStrings)
    } else if text == "-i"@ || text == "--ignore-case"@ {
        Some(Switch::IgnoreCase)
    } else if text == "-s"@ || text == "--case-sensitive"@ {
        Some(Switch::CaseSensitive)
    } else if text == "-S"@ || text == "--smart-case"@ {
        Some(Switch::SmartCase)
    } else if text == "-n"@ {
        Some(Switch::LineNumbers)
    } else if text == "--column"@ {
        Some(Switch::Column)
    } else if text == "--heading"@ {
        Some(Switch::Heading)
    } else if text == "--no-heading"@ {
        Some(Switch::NoHeading)
    } else if text == "--json"@ {
        Some(Switch::Json)
    } else if text == "--ranked"@ {
        Some(Switch::Ranked)
    } else if text == "--all"@ {
        Some(Switch::All)
    } else if text == "-w"@ || text == "--word-regexp"@ {
        Some(Switch::WordRegexp)
    } else if text == "-x"@ || text == "--line-regexp"@ {
        Some(Switch::LineRegexp)
    } else if text == "-l"@ || text == "--files-with-matches"@ {
        Some(Switch::FilesWithMatches)
    } else if text == "--files-without-match"@ {
        Some(Switch::FilesWithoutMatch)
    } else if text == "-c"@ || text == "--count"@ {
        Some(Switch::Count)
    } else if text == "--hidden"@ {
        Some(Switch::Hidden)
    } else if text == "--no-ignore"@ {
        Some(Switch::NoIgnore)
    } else if text == "-L"@ || text == "--follow"@ || text == "--follow-links"@ {
        Some(Switch::Follow)
    } else {
        None
    }
}

/// The flag with a value that is written `text`, its value being the next argument.
pub open spec fn value_flag_written(text: Seq<char>) -> Option<ValueFlag> {
    if text == "--color"@ {
        Some(ValueFlag::Color)
    } else if text == "-k"@ || text == "--top-k"@ {
        Some(ValueFlag::TopK)
    } else if text == "-m"@ || text == "--max-candidate-lines"@ {
        Some(ValueFlag::MaxCandidateLines)
    } else if text == "-A"@ || text == "--after-context"@ {
        Some(ValueFlag::AfterContext)
    } else if text == "-B"@ || text == "--before-context"@ {
        Some(ValueFlag::BeforeContext)
    } else if text == "-C"@ || text == "--context"@ {
        Some(ValueFlag::Context)
    } else if text == "--max-snippets"@ {
        Some(ValueFlag::MaxSnippets)
    } else if text == "-g"@ || text == "--glob"@ {
        Some(ValueFlag::Glob)
    } else if text == "-t"@ || text == "--type"@ {
        Some(ValueFlag::Type)
    } else if text == "-T"@ || text == "--type-not"@ {
        Some(ValueFlag::TypeNot)
    } else {
        None
    }
}

/// How a flag begins whose value stands behind an equals sign.
pub open spec fn long_prefix(flag: ValueFlag) -> Seq<char> {
    match flag {
        ValueFlag::Color => "--color="@,
        ValueFlag::TopK => "--top-k="@,
        ValueFlag::MaxCandidateLines => "--max-candidate-lines="@,
        ValueFlag::AfterContext => "--after-context="@,
        ValueFlag::BeforeContext => "--before-context="@,
        ValueFlag::Context => "--context="@,
        ValueFlag::MaxSnippets => "--max-snippets="@,
        ValueFlag::Glob => "--glob="@,
        ValueFlag::Type => "--type="@,
        ValueFlag::TypeNot => "--type-not="@,
    }
}

/// How a flag begins whose value stands directly behind it; six flags have this form.
pub open spec fn short_prefix(flag: ValueFlag) -> Option<Seq<char>> {
    match flag {
        ValueFlag::AfterContext => Some("-A"@),
        ValueFlag::BeforeContext => Some("-B"@),
        ValueFlag::Context => Some("-C"@),
        ValueFlag::Glob => Some("-g"@),
        ValueFlag::Type => Some("-t"@),
        ValueFlag::TypeNot => Some("-T"@),
        _ => None,
    }
}

/// The flag that `text` begins with, with its value behind an equals sign.
pub open spec fn long_inline(text: Seq<char>) -> Option<ValueFlag> {
    if long_prefix(ValueFlag::TopK).is_prefix_of(text) {
        Some(ValueFlag::TopK)
    } else if long_prefix(ValueFlag::MaxCandidateLines).is_prefix_of(text) {
        Some(ValueFlag::MaxCandidateLines)
    } else if long_prefix(ValueFlag::AfterContext).is_prefix_of(text) {
        Some(ValueFlag::AfterContext)
    } else if long_prefix(ValueFlag::BeforeContext).is_prefix_of(text) {
        Some(ValueFlag::BeforeContext)
    } else if long_prefix(ValueFlag::Context).is_prefix_of(text) {
        Some(ValueFlag::Context)
    } else if long_prefix(ValueFlag::MaxSnippets).is_prefix_of(text) {
        Some(ValueFlag::MaxSnippets)
    } else if long_prefix(ValueFlag::Glob).is_prefix_of(text) {
        Some(ValueFlag::Glob)
    } else if long_prefix(ValueFlag::Type).is_prefix_of(text) {
        Some(ValueFlag::Type)
    } else if long_prefix(ValueFlag::TypeNot).is_prefix_of(text) {
        Some(ValueFlag::TypeNot)
    } else if long_prefix(ValueFlag::Color).is_prefix_of(text) {
        Some(ValueFlag::Color)
    } else {
        None
    }
}

/// The flag that `text` begins with, with its value directly behind it.
pub open spec fn short_inline(text: Seq<char>) -> Option<ValueFlag> {
    if "-A"@.is_prefix_of(text) {
        Some(ValueFlag::AfterContext)
    } else if "-B"@.is_prefix_of(text) {
        Some(ValueFlag::BeforeContext)
    } else if "-C"@.is_prefix_of(text) {
        Some(ValueFlag::Context)
    } else if "-g"@.is_prefix_of(text) {
        Some(ValueFlag::Glob)
    } else if "-t"@.is_prefix_of(text) {
        Some(ValueFlag::Type)
    } else if "-T"@.is_prefix_of(text) {
        Some(ValueFlag::TypeNot)
    } else {
        None
    }
}

/// What one argument is.
pub open spec fn argument_kind(text: Seq<char>) -> Argument {
    match switch_written(text) {
        Some(switch) => Argument::Switch(switch),
        None => match value_flag_written(text) {
            Some(flag) => Argument::Separate(flag),
            None => match long_inline(text) {
                Some(flag) => Argument::Inline(flag),
                None => match short_inline(text) {
                    Some(flag) => Argument::ShortInline(flag),
                    None => if text == "--"@ {
                        Argument::Separator
                    } else if "-"@.is_prefix_of(text) {
                        Argument::Unknown
                    } else {
                        Argument::Positional
                    },
                },
            },
        },
    }
}

/// What a flag without a value changes.
pub open spec fn with_switch(cli: CliView, switch: Switch) -> CliView {
    CliView {

        files_mode: cli.files_mode || switch == Switch::Files,
        debug: cli.debug || switch == Switch::Debug,
        match_mode: if switch == Switch::FixedStrings {
            MatchMode::FixedStrings
        } else {
            cli.match_mode
        },
        case_mode: if switch == Switch::IgnoreCase {
            CaseMode::Insensitive
        } else if switch == Switch::CaseSensitive {
            CaseMode::Sensitive
        } else if switch == Switch::SmartCase {
            CaseMode::Smart
        } else {
            cli.case_mode
        },
        output_mode: if switch == Switch::Json {
            SearchOutputMode::Json
        } else if switch == Switch::Ranked {
            SearchOutputMode::Ranked
        } else if switch == Switch::FilesWithMatches {
            SearchOutputMode::FilesWithMatches
        } else if switch == Switch::FilesWithoutMatch {
            SearchOutputMode::FilesWithoutMatch
        } else if switch == Switch::Count {
            SearchOutputMode::Count
        } else {
            cli.output_mode
        },
        show_all: cli.show_all || switch == Switch::All,
        line_numbers: cli.line_numbers || switch == Switch::LineNumbers,
        show_column: cli.show_column || switch == Switch::Column,
        heading: (cli.heading || switch == Switch::Heading) && switch != Switch::NoHeading,
        word_regexp: cli.word_regexp || switch == Switch::WordRegexp,
        line_regexp: cli.line_regexp || switch == Switch::LineRegexp,
        hidden: cli.hidden || switch == Switch::Hidden,
        no_ignore: cli.no_ignore || switch == Switch::NoIgnore,
        follow_links: cli.follow_links || switch == Switch::Follow,
        ..cli
    }
}

/// The number that the value of a flag stands for.
pub open spec fn number_or_error(value: Seq<char>, flag: Seq<char>) -> Result<usize, Seq<char>> {
    match size_value(value) {
        Some(number) => Ok(number),
        None => Err("invalid numeric value for "@ + flag + ": "@ + value),
    }
}

/// The colour mode that a word names.
pub open spec fn color_or_error(value: Seq<char>) -> Result<ColorMode, Seq<char>> {
    if value == "auto"@ {
        Ok(ColorMode::Auto)
    } else if value == "always"@ {
        Ok(ColorMode::Always)
    } else if value == "never"@ {
        Ok(ColorMode::Never)
    } else {
        Err("invalid value for --color: "@ + value)
    }
}

/// What a number given with a flag changes.
pub open spec fn with_number(cli: CliView, flag: ValueFlag, number: usize) -> CliView {
    CliView {

        top_k: if flag == ValueFlag::TopK {
            number
        } else {
            cli.top_k
        },
        max_candidate_lines: if flag == ValueFlag::MaxCandidateLines {
            number
        } else {
            cli.max_candidate_lines
        },
        before_context: if flag == ValueFlag::BeforeContext || flag == ValueFlag::Context {
            number
        } else {
            cli.before_context
        },
        after_context: if flag == ValueFlag::AfterContext || flag == ValueFlag::Context {
            number
        } else {
            cli.after_context
        },
        context_explicit: cli.context_explicit || flag == ValueFlag::BeforeContext || flag
            == ValueFlag::AfterContext || flag == ValueFlag::Context,
        max_snippets: if flag == ValueFlag::MaxSnippets {
            number
        } else {
            cli.max_snippets
        },
        ..cli
    }
}

/// The colour mode set.
pub open spec fn with_color(cli: CliView, mode: ColorMode) -> CliView {
    CliView { color_mode: mode, ..cli }
}

/// One more name put to the list that a flag fills.
pub open spec fn with_name(cli: CliView, flag: ValueFlag, name: Seq<char>) -> CliView {
    CliView {
        globs: if flag == ValueFlag::Glob {
            cli.globs.push(name)
        } else {
            cli.globs
        },
        type_names: if flag == ValueFlag::Type {
            cli.type_names.push(name)
        } else {
            cli.type_names
        },
        type_not_names: if flag == ValueFlag::TypeNot {
            cli.type_not_names.push(name)
        } else {
            cli.type_not_names
        },
        ..cli
    }
}

/// What to search for, and where.
pub open spec fn with_target(cli: CliView, query: Option<Seq<char>>, roots: Seq<Seq<char>>) -> CliView {
    CliView { query, roots, ..cli }
}

/// What a flag with a value changes, or why the value will not do. `label` is the flag as it is
/// called in a message.
pub open spec fn with_value(
    cli: CliView,
    flag: ValueFlag,
    value: Seq<char>,
    label: Seq<char>,
) -> Result<CliView, Seq<char>> {
    match flag {
        ValueFlag::Color => match color_or_error(value) {
            Ok(mode) => Ok(with_color(cli, mode)),
            Err(message) => Err(message),
        },
        ValueFlag::Glob | ValueFlag::Type | ValueFlag::TypeNot => Ok(with_name(cli, flag, value)),
        _ => match number_or_error(value, label) {
            Ok(number) => Ok(with_number(cli, flag, number)),
            Err(message) => Err(message),
        },
    }
}

/// The whole help text.
pub open spec fn help() -> Seq<char> {
    VERSION_TEXT@ + ": "@ + HELP_SUMMARY@ + "\n\n"@ + HELP_BODY@
}

/// Where to search: the given paths, or the current directory where there are none.
pub open spec fn roots_or_current(paths: Seq<Seq<char>>) -> Seq<Seq<char>> {
    if paths.len() == 0 {
        seq!["."@]
    } else {
        paths
    }
}

/// What the flags and the positional arguments come to together.
pub open spec fn with_positionals(
    cli: CliView,
    positionals: Seq<Seq<char>>,
) -> Result<ParseOutcomeView, Seq<char>> {
    if cli.files_mode {
        Ok(ParseOutcomeView::Cli(with_target(cli, None, roots_or_current(positionals))))
    } else if positionals.len() == 0 {
        Err("missing query\n\n"@ + help())
    } else if blank(positionals[0]) {
        Err("query must not be empty"@)
    } else {
        Ok(
            ParseOutcomeView::Cli(
                with_target(
                    cli,
                    Some(positionals[0]),
                    roots_or_current(positionals.drop_first()),
                ),
            ),
        )
    }
}

/// What the arguments come to, read from the left, on top of what was read before them.
pub open spec fn parsed_from(
    cli: CliView,
    positionals: Seq<Seq<char>>,
    arguments: Seq<Seq<char>>,
) -> Result<ParseOutcomeView, Seq<char>>
    decreases arguments.len(),
{
    if arguments.len() == 0 {
        with_positionals(cli, positionals)
    } else {
        let argument = arguments[0];
        let rest = arguments.drop_first();
        match argument_kind(argument) {
            Argument::Switch(switch) => if switch == Switch::Help {
                Ok(ParseOutcomeView::Help)
            } else if switch == Switch::Version {
                Ok(ParseOutcomeView::Version)
            } else {
                parsed_from(with_switch(cli, switch), positionals, rest)
            },
            Argument::Separate(flag) => if rest.len() == 0 {
                Err("missing value for "@ + argument)
            } else {
                match with_value(cli, flag, rest[0], argument) {
                    Ok(next) => parsed_from(next, positionals, rest.drop_first()),
                    Err(message) => Err(message),
                }
            },
            Argument::Inline(flag) => {
                let prefix = long_prefix(flag);
                match with_value(cli, flag, argument.skip(prefix.len() as int), prefix) {
                    Ok(next) => parsed_from(next, positionals, rest),
                    Err(message) => Err(message),
                }
            },
            Argument::ShortInline(flag) => {
                let prefix = short_prefix(flag)->0;
                match with_value(cli, flag, argument.skip(prefix.len() as int), prefix) {
                    Ok(next) => parsed_from(next, positionals, rest),
                    Err(message) => Err(message),
                }
            },
            Argument::Separator => with_positionals(cli, positionals + rest),
            Argument::Unknown => Err("unknown flag: "@ + argument + "\n\n"@ + help()),
            Argument::Positional => parsed_from(cli, positionals.push(argument), rest),
        }
    }
}

/// What is asked for where no flag says otherwise.
pub open spec fn defaults() -> CliView {
    CliView {
        query: None,
        roots: Seq::empty(),
        files_mode: false,
        debug: false,
        match_mode: MatchMode::Regex,
        case_mode: CaseMode::Smart,
        output_mode: SearchOutputMode::Standard,
        show_all: false,
        top_k: DEFAULT_TOP_K,
        max_candidate_lines: DEFAULT_MAX_CANDIDATE_LINES,
        before_context: 0,
        after_context: 0,
        context_explicit: false,
        max_snippets: DEFAULT_MAX_SNIPPETS,
        globs: Seq::empty(),
        type_names: Seq::empty(),
        type_not_names: Seq::empty(),
        line_numbers: false,
        show_column: false,
        heading: false,
        color_mode: ColorMode::Auto,
        word_regexp: false,
        line_regexp: false,
        hidden: false,
        no_ignore: false,
        follow_links: false,
    }
}

/// What a command line comes to.
pub open spec fn parsed(arguments: Seq<Seq<char>>) -> Result<ParseOutcomeView, Seq<char>> {
    parsed_from(defaults(), Seq::empty(), arguments)
}

/// What reading came to, with texts as sequences of characters.
pub open spec fn parse_result(result: Result<ParseOutcome, String>) -> Result<
    ParseOutcomeView,
    Seq<char>,
> {
    match result {
        Ok(outcome) => Ok(outcome@),
        Err(message) => Err(message@),
    }
}

/// The flag without a value that is written `text`.
fn read_switch(text: &str) -> (switch: Option<Switch>)
    ensures
        switch == switch_written(text@),
{
    if same_text(text, "-h") || same_text(text, "--help") {
        return Some(Switch::Help);
    }
    if same_text(text, "-v") || same_text(text, "--version") {
        return Some(Switch::Version);
    }
    if same_text(text, "--files") {
        return Some(Switch::Files);
    }
    if same_text(text, "--debug") {
        return Some(Switch::Debug);
    }
    if same_text(text, "-F") || same_text(text, "--fixed-strings") {
        return Some(Switch::FixedStrings);
    }
    if same_text(text, "-i") || same_text(text, "--ignore-case") {
        return Some(Switch::IgnoreCase);
    }
    if same_text(text, "-s") || same_text(text, "--case-sensitive") {
        return Some(Switch::CaseSensitive);
    }
    if same_text(text, "-S") || same_text(text, "--smart-case") {
        return Some(Switch::SmartCase);
    }
    if same_text(text, "-n") {
        return Some(Switch::LineNumbers);
    }
    if same_text(text, "--column") {
        return Some(Switch::Column);
    }
    if same_text(text, "--heading") {
        return Some(Switch::Heading);
    }
    if same_text(text, "--no-heading") {
        return Some(Switch::NoHeading);
    }
    if same_text(text, "--json") {
        return Some(Switch::Json);
    }
    if same_text(text, "--ranked") {
        return Some(Switch::Ranked);
    }
    if same_text(text, "--all") {
        return Some(Switch::All);
    }
    if same_text(text, "-w") || same_text(text, "--word-regexp") {
        return Some(Switch::WordRegexp);
    }
    if same_text(text, "-x") || same_text(text, "--line-regexp") {
        return Some(Switch::LineRegexp);
    }
    if same_text(text, "-l") || same_text(text, "--files-with-matches") {
        return Some(Switch::FilesWithMatches);
    }
    if same_text(text, "--files-without-match") {
        return Some(Switch::FilesWithoutMatch);
    }
    if same_text(text, "-c") || same_text(text, "--count") {
        return Some(Switch::Count);
    }
    if same_text(text, "--hidden") {
        return Some(Switch::Hidden);
    }
    if same_text(text, "--no-ignore") {
        return Some(Switch::NoIgnore);
    }
    if same_text(text, "-L") || same_text(text, "--follow") || same_text(text, "--follow-links") {
        return Some(Switch::Follow);
    }
    None
}

/// The flag with a value that is written `text`.
fn read_value_flag(text: &str) -> (flag: Option<ValueFlag>)
    ensures
        flag == value_flag_written(text@),
{
    if same_text(text, "--color") {
        return Some(ValueFlag::Color);
    }
    if same_text(text, "-k") || same_text(text, "--top-k") {
        return Some(ValueFlag::TopK);
    }
    if same_text(text, "-m") || same_text(text, "--max-candidate-lines") {
        return Some(ValueFlag::MaxCandidateLines);
    }
    if same_text(text, "-A") || same_text(text, "--after-context") {
        return Some(ValueFlag::AfterContext);
    }
    if same_text(text, "-B") || same_text(text, "--before-context") {
        return Some(ValueFlag::BeforeContext);
    }
    if same_text(text, "-C") || same_text(text, "--context") {
        return Some(ValueFlag::Context);
    }
    if same_text(text, "--max-snippets") {
        return Some(ValueFlag::MaxSnippets);
    }
    if same_text(text, "-g") || same_text(text, "--glob") {
        return Some(ValueFlag::Glob);
    }
    if same_text(text, "-t") || same_text(text, "--type") {
        return Some(ValueFlag::Type);
    }
    if same_text(text, "-T") || same_text(text, "--type-not") {
        return Some(ValueFlag::TypeNot);
    }
    None
}

/// How a flag begins whose value stands behind an equals sign.
fn long_prefix_text(flag: ValueFlag) -> (prefix: &'static str)
    ensures
        prefix@ == long_prefix(flag),
{
    match flag {
        ValueFlag::Color => "--color=",
        ValueFlag::TopK => "--top-k=",
        ValueFlag::MaxCandidateLines => "--max-candidate-lines=",
        ValueFlag::AfterContext => "--after-context=",
        ValueFlag::BeforeContext => "--before-context=",
        ValueFlag::Context => "--context=",
        ValueFlag::MaxSnippets => "--max-snippets=",
        ValueFlag::Glob => "--glob=",
        ValueFlag::Type => "--type=",
        ValueFlag::TypeNot => "--type-not=",
    }
}

/// How a flag begins whose value stands directly behind it.
fn short_prefix_text(flag: ValueFlag) -> (prefix: &'static str)
    requires
        short_prefix(flag) is Some,
    ensures
        Some(prefix@) == short_prefix(flag),
{
    match flag {
        ValueFlag::AfterContext => "-A",
        ValueFlag::BeforeContext => "-B",
        ValueFlag::Context => "-C",
        ValueFlag::Glob => "-g",
        ValueFlag::Type => "-t",
        _ => "-T",
    }
}

/// The flag that `text` begins with, with its value behind an equals sign.
fn read_long_inline(text: &str) -> (flag: Option<ValueFlag>)
    ensures
        flag == long_inline(text@),
{
    if begins_with(text, "--top-k=") {
        return Some(ValueFlag::TopK);
    }
    if begins_with(text, "--max-candidate-lines=") {
        return Some(ValueFlag::MaxCandidateLines);
    }
    if begins_with(text, "--after-context=") {
        return Some(ValueFlag::AfterContext);
    }
    if begins_with(text, "--before-context=") {
        return Some(ValueFlag::BeforeContext);
    }
    if begins_with(text, "--context=") {
        return Some(ValueFlag::Context);
    }
    if begins_with(text, "--max-snippets=") {
        return Some(ValueFlag::MaxSnippets);
    }
    if begins_with(text, "--glob=") {
        return Some(ValueFlag::Glob);
    }
    if begins_with(text, "--type=") {
        return Some(ValueFlag::Type);
    }
    if begins_with(text, "--type-not=") {
        return Some(ValueFlag::TypeNot);
    }
    if begins_with(text, "--color=") {
        return Some(ValueFlag::Color);
    }
    None
}

/// The flag that `text` begins with, with its value directly behind it.
fn read_short_inline(text: &str) -> (flag: Option<ValueFlag>)
    ensures
        flag == short_inline(text@),
{
    if begins_with(text, "-A") {
        return Some(ValueFlag::AfterContext);
    }
    if begins_with(text, "-B") {
        return Some(ValueFlag::BeforeContext);
    }
    if begins_with(text, "-C") {
        return Some(ValueFlag::Context);
    }
    if begins_with(text, "-g") {
        return Some(ValueFlag::Glob);
    }
    if begins_with(text, "-t") {
        return Some(ValueFlag::Type);
    }
    if begins_with(text, "-T") {
        return Some(ValueFlag::TypeNot);
    }
    None
}

/// What one argument is.
fn read_argument(text: &str) -> (argument: Argument)
    ensures
        argument == argument_kind(text@),
{
    if let Some(switch) = read_switch(text) {
        return Argument::Switch(switch);
    }
    if let Some(flag) = read_value_flag(text) {
        return Argument::Separate(flag);
    }
    if let Some(flag) = read_long_inline(text) {
        return Argument::Inline(flag);
    }
    if let Some(flag) = read_short_inline(text) {
        return Argument::ShortInline(flag);
    }
    if same_text(text, "--") {
        Argument::Separator
    } else if begins_with(text, "-") {
        Argument::Unknown
    } else {
        Argument::Positional
    }
}

/// Makes the change of a flag without a value.
fn apply_switch(cli: Cli, switch: Switch) -> (next: Cli)
    ensures
        next@ == with_switch(cli@, switch),
{
    Cli {

        files_mode: cli.files_mode || switch == Switch::Files,
        debug: cli.debug || switch == Switch::Debug,
        match_mode: if switch == Switch::FixedStrings {
            MatchMode::FixedStrings
        } else {
            cli.match_mode
        },
        case_mode: if switch == Switch::IgnoreCase {
            CaseMode::Insensitive
        } else if switch == Switch::CaseSensitive {
            CaseMode::Sensitive
        } else if switch == Switch::SmartCase {
            CaseMode::Smart
        } else {
            cli.case_mode
        },
        output_mode: if switch == Switch::Json {
            SearchOutputMode::Json
        } else if switch == Switch::Ranked {
            SearchOutputMode::Ranked
        } else if switch == Switch::FilesWithMatches {
            SearchOutputMode::FilesWithMatches
        } else if switch == Switch::FilesWithoutMatch {
            SearchOutputMode::FilesWithoutMatch
        } else if switch == Switch::Count {
            SearchOutputMode::Count
        } else {
            cli.output_mode
        },
        show_all: cli.show_all || switch == Switch::All,
        line_numbers: cli.line_numbers || switch == Switch::LineNumbers,
        show_column: cli.show_column || switch == Switch::Column,
        heading: (cli.heading || switch == Switch::Heading) && switch != Switch::NoHeading,
        word_regexp: cli.word_regexp || switch == Switch::WordRegexp,
        line_regexp: cli.line_regexp || switch == Switch::LineRegexp,
        hidden: cli.hidden || switch == Switch::Hidden,
        no_ignore: cli.no_ignore || switch == Switch::NoIgnore,
        follow_links: cli.follow_links || switch == Switch::Follow,
        ..cli
    }
}

/// Makes the change of a number given with a flag.
fn apply_number(cli: Cli, flag: ValueFlag, number: usize) -> (next: Cli)
    ensures
        next@ == with_number(cli@, flag, number),
{
    Cli {

        top_k: if flag == ValueFlag::TopK {
            number
        } else {
            cli.top_k
        },
        max_candidate_lines: if flag == ValueFlag::MaxCandidateLines {
            number
        } else {
            cli.max_candidate_lines
        },
        before_context: if flag == ValueFlag::BeforeContext || flag == ValueFlag::Context {
            number
        } else {
            cli.before_context
        },
        after_context: if flag == ValueFlag::AfterContext || flag == ValueFlag::Context {
            number
        } else {
            cli.after_context
        },
        context_explicit: cli.context_explicit || flag == ValueFlag::BeforeContext || flag
            == ValueFlag::AfterContext || flag == ValueFlag::Context,
        max_snippets: if flag == ValueFlag::MaxSnippets {
            number
        } else {
            cli.max_snippets
        },
        ..cli
    }
}

/// The texts, with one more at the end where `wanted`.
fn with_text(list: Vec<String>, wanted: bool, text: &String) -> (longer: Vec<String>)
    ensures
        texts(longer@) == if wanted {
            texts(list@).push(text@)
        } else {
            texts(list@)
        },
{
    let mut longer = list;
    if wanted {
        longer.push(text.clone());
        assert(texts(longer@) == texts(list@).push(text@));
    }
    longer
}

/// Puts one more name to the list that a flag fills.
fn apply_name(cli: Cli, flag: ValueFlag, name: String) -> (next: Cli)
    ensures
        next@ == with_name(cli@, flag, name@),
{
    Cli {
        globs: with_text(cli.globs, flag == ValueFlag::Glob, &name),
        type_names: with_text(cli.type_names, flag == ValueFlag::Type, &name),
        type_not_names: with_text(cli.type_not_names, flag == ValueFlag::TypeNot, &name),
        ..cli
    }
}

/// Sets the colour mode.
fn apply_color(cli: Cli, mode: ColorMode) -> (next: Cli)
    ensures
        next@ == with_color(cli@, mode),
{
    Cli { color_mode: mode, ..cli }
}

/// Sets what to search for, and where.
fn apply_target(cli: Cli, query: Option<String>, roots: Vec<String>) -> (next: Cli)
    ensures
        next@ == with_target(
            cli@,
            match query {
                Some(text) => Some(text@),
                None => None,
            },
            texts(roots@),
        ),
{
    Cli { query, roots, ..cli }
}

/// Makes the change of a flag with a value.
fn apply_value(cli: Cli, flag: ValueFlag, value: String, label: &str) -> (result: Result<
    Cli,
    String,
>)
    ensures
        match (result, with_value(cli@, flag, value@, label@)) {
            (Ok(next), Ok(expected)) => next@ == expected,
            (Err(message), Err(expected)) => message@ == expected,
            _ => false,
        },
{
    match flag {
        ValueFlag::Color => match parse_color_mode(value.as_str()) {
            Ok(mode) => Ok(apply_color(cli, mode)),
            Err(message) => Err(message),
        },
        ValueFlag::Glob | ValueFlag::Type | ValueFlag::TypeNot => Ok(apply_name(cli, flag, value)),
        _ => match parse_usize_value(Some(value), label) {
            Ok(number) => Ok(apply_number(cli, flag, number)),
            Err(message) => Err(message),
        },
    }
}

/// The message that a flag's value is missing.
fn missing_value(flag: &str) -> (message: String)
    ensures
        message@ == "missing value for "@ + flag@,
{
    let mut message = "missing value for ".to_owned();
    message.append(flag);
    message
}

/// The message that a flag's value is no number.
fn invalid_number(flag: &str, value: &str) -> (message: String)
    ensures
        message@ == "invalid numeric value for "@ + flag@ + ": "@ + value@,
{
    let mut message = "invalid numeric value for ".to_owned();
    message.append(flag);
    message.append(": ");
    message.append(value);
    message
}

/// The message that an argument does not begin as it should.
fn invalid_syntax(argument: &str) -> (message: String)
    ensures
        message@ == "invalid flag syntax: "@ + argument@,
{
    let mut message = "invalid flag syntax: ".to_owned();
    message.append(argument);
    message
}

/// The number given as the value of `flag`.
pub fn parse_usize_value(value: Option<String>, flag: &str) -> (result: Result<usize, String>)
    ensures
        error_text(result) == (match value {
            Some(raw) => number_or_error(raw@, flag@),
            None => Err("missing value for "@ + flag@),
        }),
{
    match value {
        Some(raw) => match parse_size(raw.as_str()) {
            Some(number) => Ok(number),
            None => Err(invalid_number(flag, raw.as_str())),
        },
        None => Err(missing_value(flag)),
    }
}

/// The text given as the value of `flag`.
pub fn parse_string_value(value: Option<String>, flag: &str) -> (result: Result<String, String>)
    ensures
        result_text(result) == (match value {
            Some(raw) => Ok(raw@),
            None => Err("missing value for "@ + flag@),
        }),
{
    match value {
        Some(raw) => Ok(raw),
        None => Err(missing_value(flag)),
    }
}

/// The number that follows `prefix` in `argument`.
pub fn parse_usize_inline(argument: &str, prefix: &str) -> (result: Result<usize, String>)
    ensures
        error_text(result) == (if prefix@.is_prefix_of(argument@) {
            number_or_error(argument@.skip(prefix@.len() as int), prefix@)
        } else {
            Err("invalid flag syntax: "@ + argument@)
        }),
{
    match strip_prefix(argument, prefix) {
        Some(value) => parse_usize_value(Some(value), prefix),
        None => Err(invalid_syntax(argument)),
    }
}

/// The text that follows `prefix` in `argument`.
pub fn parse_string_inline(argument: &str, prefix: &str) -> (result: Result<String, String>)
    ensures
        result_text(result) == (if prefix@.is_prefix_of(argument@) {
            Ok(argument@.skip(prefix@.len() as int))
        } else {
            Err("invalid flag syntax: "@ + argument@)
        }),
{
    match strip_prefix(argument, prefix) {
        Some(value) => Ok(value),
        None => Err(invalid_syntax(argument)),
    }
}

/// The number that follows a short flag in `argument`.
pub fn parse_short_usize_inline(argument: &str, prefix: &str) -> (result: Result<usize, String>)
    ensures
        error_text(result) == (if prefix@.is_prefix_of(argument@) {
            number_or_error(argument@.skip(prefix@.len() as int), prefix@)
        } else {
            Err("invalid flag syntax: "@ + argument@)
        }),
{
    parse_usize_inline(argument, prefix)
}

/// The text that follows a short flag in `argument`.
pub fn parse_short_string_inline(argument: &str, prefix: &str) -> (result: Result<String, String>)
    ensures
        result_text(result) == (if prefix@.is_prefix_of(argument@) {
            Ok(argument@.skip(prefix@.len() as int))
        } else {
            Err("invalid flag syntax: "@ + argument@)
        }),
{
    parse_string_inline(argument, prefix)
}

/// The colour mode that a word names.
pub fn parse_color_mode(value: &str) -> (result: Result<ColorMode, String>)
    ensures
        error_text(result) == color_or_error(value@),
{
    if same_text(value, "auto") {
        Ok(ColorMode::Auto)
    } else if same_text(value, "always") {
        Ok(ColorMode::Always)
    } else if same_text(value, "never") {
        Ok(ColorMode::Never)
    } else {
        let mut message = "invalid value for --color: ".to_owned();
        message.append(value);
        Err(message)
    }
}

/// The help text: the version and a summary, then the usage.
pub fn help_text() -> (text: String)
    ensures
        text@ == help(),
{
    let mut text = VERSION_TEXT.to_owned();
    text.append(": ");
    text.append(HELP_SUMMARY);
    text.append("\n\n");
    text.append(HELP_BODY);
    text
}

/// What is asked for where no flag says otherwise.
fn default_cli() -> (cli: Cli)
    ensures
        cli@ == defaults(),
{
    let cli = Cli {
        query: None,
        roots: Vec::new(),
        files_mode: false,
        debug: false,
        match_mode: MatchMode::Regex,
        case_mode: CaseMode::Smart,
        output_mode: SearchOutputMode::Standard,
        show_all: false,
        top_k: DEFAULT_TOP_K,
        max_candidate_lines: DEFAULT_MAX_CANDIDATE_LINES,
        before_context: 0,
        after_context: 0,
        context_explicit: false,
        max_snippets: DEFAULT_MAX_SNIPPETS,
        globs: Vec::new(),
        type_names: Vec::new(),
        type_not_names: Vec::new(),
        line_numbers: false,
        show_column: false,
        heading: false,
        color_mode: ColorMode::Auto,
        word_regexp: false,
        line_regexp: false,
        hidden: false,
        no_ignore: false,
        follow_links: false,
    };
    assert(cli@.roots == Seq::<Seq<char>>::empty());
    assert(cli@.globs == Seq::<Seq<char>>::empty());
    assert(cli@.type_names == Seq::<Seq<char>>::empty());
    assert(cli@.type_not_names == Seq::<Seq<char>>::empty());
    cli
}

/// Where to search: the given paths, or the current directory where there are none.
fn paths_or_current(paths: Vec<String>) -> (roots: Vec<String>)
    ensures
        texts(roots@) == roots_or_current(texts(paths@)),
{
    if paths.len() > 0 {
        return paths;
    }
    let mut roots: Vec<String> = Vec::new();
    roots.push(".".to_owned());
    assert(texts(roots@) == seq!["."@]);
    roots
}

/// Puts the positional arguments to the flags.
fn finish(cli: Cli, positionals: Vec<String>) -> (result: Result<ParseOutcome, String>)
    ensures
        parse_result(result) == with_positionals(cli@, texts(positionals@)),
{
    let mut positionals = positionals;
    if cli.files_mode {
        return Ok(ParseOutcome::Cli(apply_target(cli, None, paths_or_current(positionals))));
    }
    if positionals.len() == 0 {
        let mut message = "missing query\n\n".to_owned();
        message.append(help_text().as_str());
        return Err(message);
    }
    let ghost all = texts(positionals@);
    let query = positionals.remove(0);
    assert(texts(positionals@) == all.drop_first());
    if is_blank(query.as_str()) {
        return Err("query must not be empty".to_owned());
    }
    Ok(ParseOutcome::Cli(apply_target(cli, Some(query), paths_or_current(positionals))))
}

/// Reads the arguments that follow the program's name.
pub fn parse_args_from(arguments: Vec<String>) -> (result: Result<ParseOutcome, String>)
    ensures
        parse_result(result) == parsed(texts(arguments@)),
{
    let mut cli = default_cli();
    let mut positionals: Vec<String> = Vec::new();
    let ghost all = texts(arguments@);
    let mut at: usize = 0;
    assert(texts(positionals@) == Seq::<Seq<char>>::empty());
    assert(all.skip(0) == all);
    while at < arguments.len()
        invariant
            all == texts(arguments@),
            at <= arguments@.len(),
            parsed(all) == parsed_from(cli@, texts(positionals@), all.skip(at as int)),
        decreases arguments@.len() - at,
    {
        let argument = arguments[at].as_str();
        let ghost rest = all.skip(at + 1);
        assert(all.skip(at as int)[0] == argument@);
        assert(all.skip(at as int).drop_first() == rest);
        at = at + 1;
        match read_argument(argument) {
            Argument::Switch(switch) => {
                if switch == Switch::Help {
                    return Ok(ParseOutcome::Help);
                }
                if switch == Switch::Version {
                    return Ok(ParseOutcome::Version);
                }
                cli = apply_switch(cli, switch);
            },
            Argument::Separate(flag) => {
                if at == arguments.len() {
                    return Err(missing_value(argument));
                }
                assert(rest[0] == arguments@[at as int]@);
                assert(rest.drop_first() == all.skip(at + 1));
                let value = arguments[at].clone();
                at = at + 1;
                cli = apply_value(cli, flag, value, argument)?;
            },
            Argument::Inline(flag) => {
                let prefix = long_prefix_text(flag);
                let value = parse_string_inline(argument, prefix)?;
                cli = apply_value(cli, flag, value, prefix)?;
            },
            Argument::ShortInline(flag) => {
                let prefix = short_prefix_text(flag);
                let value = parse_short_string_inline(argument, prefix)?;
                cli = apply_value(cli, flag, value, prefix)?;
            },
            Argument::Separator => {
                while at < arguments.len()
                    invariant
                        all == texts(arguments@),
                        at <= arguments@.len(),
                        parsed(all) == with_positionals(cli@, texts(positionals@) + all.skip(at as int)),
                    decreases arguments@.len() - at,
                {
                    let ghost before = texts(positionals@);
                    positionals.push(arguments[at].clone());
                    at = at + 1;
                    assert(texts(positionals@) == before.push(all[at - 1]));
                    assert(before + all.skip(at - 1) == texts(positionals@) + all.skip(at as int));
                }
                assert(texts(positionals@) + all.skip(at as int) == texts(positionals@));
                return finish(cli, positionals);
            },
            Argument::Unknown => {
                let mut message = "unknown flag: ".to_owned();
                message.append(argument);
                message.append("\n\n");
                message.append(help_text().as_str());
                return Err(message);
            },
            Argument::Positional => {
                let ghost before = texts(positionals@);
                positionals.push(arguments[at - 1].clone());
                assert(texts(positionals@) == before.push(argument@));
            },
        }
    }
    finish(cli, positionals)
}

} // verus!
