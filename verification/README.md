# rgrank

`rgrank` searches files for a regular expression or for literal terms and prints what it finds in
the manner of `rg`, as JSON, or as a ranked report. It also searches the text of Office documents,
PDF files and archives. The library is written in Verus: what each function does is stated in its
contract and proved.

## Layout

- `src/` is the library.
  - `cli`, `usage`: the command line, and what holds of every command line.
  - `text`, `bytes`: characters, words, lines and numbers; bytes and their texts.
  - `query`, `spelling`, `hits`, `candidate`, `cover`: what is searched for, how texts are compared
    with it, and what of a file counts towards its rank.
  - `order`, `rank`, `context`, `snippet`, `collect`, `report`: ranking, the passages that are
    shown, and the report.
  - `matcher`, `around`, `sinks`, `search`, `walk`: matchers, what becomes of matching lines and of
    the lines around them, and the walk through files.
  - `xml`, `containers`, `reading`, `extract`: the text of documents and archives.
  - `blocks`, `standard`, `plain`, `json`, `stream`: standard output and JSON output.
  - `run`: what the program does with its arguments and with the results of a search.
- `app/` is the program around the library: it reads arguments, walks and reads files, and prints.
  Scores are floating-point numbers; they are computed there from what the library counts.
- `tests/` holds tests on concrete values.

## What is trusted

Calls into `grep-regex`, `grep-searcher`, `ignore`, `zip`, `tar`, `flate2` and `quick-xml` stand
behind small functions whose contracts are not proved. The doc comment of each names the function
that it calls and says what is claimed of it. Results that take long to state have names, such as
`lines_matched` for the lines that a searcher hands on, and the contracts of the library speak of
these names.

## Workbooks and PDF documents

The readers of workbooks (`calamine`) and of PDF documents (`pdf-extract`) can panic on damaged
documents, and there is no telling beforehand on which. The library does not call them. It lists the
documents that a file is or holds (`documents_to_read`), the program reads these under a guard, and
the library extracts the text of the file from their readings.

## Limits

Archives within archives are read four levels deep. Some inputs are refused with an error, because
the crates that would read them can panic or run out of stack on them: globs that open more than 500
braces, XML parts of more than `i32::MAX` bytes, and tar archives with sparse files whose sizes leave
no room in a `u64`.
