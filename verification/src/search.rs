//! Searches: what is searched, and what becomes of the files that were.

use vstd::prelude::*;
use vstd::utf8::encode_utf8;

use grep_regex::RegexMatcher;

use crate::around::{lines_around, search_around};
use crate::bytes::{bytes_of, decoded, lossy_text};
use crate::candidate::{lines_fit, FileCandidate, FilePath, LineMatchRecord};
use crate::cli::Cli;
use crate::containers::bytes_view;
use crate::cover::in_line_order;
use crate::extract::{
    document_kind, extract_kind, kind_of, name_view, parts_view, searchable_text, DocumentKind,
    MAX_ARCHIVE_DEPTH,
};
use crate::matcher::{
    build_matcher, found_view, line_views, lines_matched, matcher_of, numbers_ascend,
    search_content, FoundLine,
};
use crate::query::{query_of, Query};
use crate::reading::ReadDocument;
use crate::report::CountEntry;
use crate::sinks::{
    are_json_events, are_match_events, collected, is_record, lines_counted, CollectingSink,
    CountingSink, JsonEventSink, MatchEvent, MatchEventSink, SearchEnd,
};
use crate::text::{split_lines, text_lines, texts};

verus! {

/// What to search for: the query as it was given, what it comes to, and its matcher.
pub struct Prepared {
    /// The query, as it was given.
    pub query_text: String,
    /// The query.
    pub query: Query,
    /// The matcher of the query.
    pub matcher: RegexMatcher,
}

/// What is said where there is no query.
pub const NO_QUERY: &'static str = "query is required unless --files is set";

/// What is said of a query without a letter or a digit.
pub const NO_TERMS: &'static str = "query must contain at least one searchable term";

/// What to search for, as the command line gives it. It is an error where there is no query, where
/// the query has no terms, and where no matcher can be made of it.
pub fn prepare_search(cli: &Cli) -> (result: Result<Prepared, String>)
    ensures
        match cli.query {
            None => result is Err && result->Err_0@ == NO_QUERY@,
            Some(text) => match query_of(text@) {
                None => result is Err && result->Err_0@ == NO_TERMS@,
                Some(query) => match (matcher_of(*cli, text@, query), result) {
                    (Ok(matcher), Ok(prepared)) => prepared.query_text@ == text@
                        && prepared.query@ == query && prepared.matcher == matcher,
                    (Err(named), Err(message)) => message@ == named,
                    _ => false,
                },
            },
        },
{
    let query_text = match &cli.query {
        Some(text) => text.clone(),
        None => return Err(NO_QUERY.to_owned()),
    };
    let query = match Query::from_raw(query_text.as_str()) {
        Ok(query) => query,
        Err(message) => return Err(message),
    };
    match build_matcher(cli, query_text.as_str(), &query) {
        Ok(matcher) => Ok(Prepared { query_text, query, matcher }),
        Err(message) => Err(message),
    }
}

/// The bytes that are searched of a file: its searchable text, or its content as it stands.
pub open spec fn searched_bytes(
    kind: DocumentKind,
    content: Seq<u8>,
    read: Seq<ReadDocument>,
) -> Result<Seq<u8>, Seq<char>> {
    match searchable_text(kind, content, MAX_ARCHIVE_DEPTH as nat, read) {
        Ok(Some(text)) => Ok(encode_utf8(text)),
        Ok(None) => Ok(content),
        Err(message) => Err(message),
    }
}

/// The bytes that are searched of a file: its searchable text, or its content as it stands.
pub fn searchable_content(
    file_name: Option<&str>,
    extension: Option<&str>,
    content: Vec<u8>,
    read: &Vec<ReadDocument>,
) -> (result: Result<Vec<u8>, String>)
    ensures
        bytes_view(result) == searched_bytes(
            kind_of(name_view(file_name), name_view(extension)),
            content@,
            read@,
        ),
{
    let kind = document_kind(file_name, extension);
    if let DocumentKind::Plain = kind {
        return Ok(content);
    }
    match extract_kind(kind, content, MAX_ARCHIVE_DEPTH, read) {
        Ok(Some(text)) => Ok(bytes_of(text.as_str())),
        Ok(None) => Ok(Vec::new()),
        Err(message) => Err(message),
    }
}

/// The lines of a file that match.
pub open spec fn target_lines(
    matcher: RegexMatcher,
    kind: DocumentKind,
    content: Seq<u8>,
    read: Seq<ReadDocument>,
) -> Result<Seq<(u64, Seq<u8>)>, Seq<char>> {
    match searched_bytes(kind, content, read) {
        Ok(bytes) => lines_matched(matcher, bytes),
        Err(message) => Err(message),
    }
}

/// The lines of a file that match: of its searchable text, or of its content as it stands.
pub fn search_target(
    matcher: &RegexMatcher,
    file_name: Option<&str>,
    extension: Option<&str>,
    content: Vec<u8>,
    read: &Vec<ReadDocument>,
) -> (result: Result<Vec<FoundLine>, String>)
    ensures
        found_view(result) == target_lines(
            *matcher,
            kind_of(name_view(file_name), name_view(extension)),
            content@,
            read@,
        ),
        result is Ok ==> numbers_ascend(result->Ok_0@),
{
    match searchable_content(file_name, extension, content, read) {
        Ok(bytes) => search_content(matcher, &bytes),
        Err(message) => Err(message),
    }
}

/// The number of lines of a file that match, or one where the search stops at the first.
pub open spec fn target_count(
    found: Result<Seq<(u64, Seq<u8>)>, Seq<char>>,
    stop_after_first: bool,
) -> Result<nat, Seq<char>> {
    match found {
        Ok(lines) => Ok(lines_counted(lines.len(), stop_after_first)),
        Err(message) => Err(message),
    }
}

/// A search that stops at the first line tells of the same files as one that goes on, and fails where
/// that one does.
pub proof fn stopping_early_tells_of_the_same_files(found: Result<Seq<(u64, Seq<u8>)>, Seq<char>>)
    ensures
        match (target_count(found, true), target_count(found, false)) {
            (Ok(first), Ok(all)) => first <= 1 && (first > 0 <==> all > 0),
            (Err(first), Err(all)) => first == all,
            _ => false,
        },
{
}

/// The number of lines of a file that match, or one where the search stops at the first.
pub fn search_file_count(
    matcher: &RegexMatcher,
    file_name: Option<&str>,
    extension: Option<&str>,
    content: Vec<u8>,
    read: &Vec<ReadDocument>,
    stop_after_first: bool,
) -> (result: Result<usize, String>)
    ensures
        match (
            result,
            target_count(
                target_lines(
                    *matcher,
                    kind_of(name_view(file_name), name_view(extension)),
                    content@,
                    read@,
                ),
                stop_after_first,
            ),
        ) {
            (Ok(count), Ok(wanted)) => count == wanted,
            (Err(message), Err(named)) => message@ == named,
            _ => false,
        },
{
    match search_target(matcher, file_name, extension, content, read) {
        Ok(found) => {
            let mut sink = CountingSink::new(stop_after_first);
            sink.take_lines(&found);
            assert(line_views(found@).len() == found@.len());
            Ok(sink.match_count)
        },
        Err(message) => Err(message),
    }
}

/// The events for the lines of a file that match.
pub fn search_file_events(
    matcher: &RegexMatcher,
    path: &FilePath,
    capture_matches: bool,
    found: &Vec<FoundLine>,
) -> (events: Vec<MatchEvent>)
    ensures
        are_match_events(*path, *matcher, capture_matches, found@, events@),
{
    let mut sink = MatchEventSink::new(path.copy(), capture_matches);
    sink.take_lines(matcher, found);
    sink.events
}

/// The lines of a file that match, with those around them, and what the search says at its end.
pub open spec fn target_around(
    matcher: RegexMatcher,
    before: usize,
    after: usize,
    kind: DocumentKind,
    content: Seq<u8>,
    read: Seq<ReadDocument>,
) -> Result<(Seq<(bool, Option<u64>, u64, Seq<u8>)>, Option<SearchEnd>), Seq<char>> {
    match searched_bytes(kind, content, read) {
        Ok(bytes) => lines_around(matcher, before, after, bytes),
        Err(message) => Err(message),
    }
}

/// The events of the JSON output for a file: those of the lines that match and of the lines around
/// them, as many as the command line asks for.
pub fn search_file_json(
    prepared: &Prepared,
    cli: &Cli,
    path: &FilePath,
    file_name: Option<&str>,
    extension: Option<&str>,
    content: Vec<u8>,
    read: &Vec<ReadDocument>,
) -> (result: Result<JsonEventSink, String>)
    ensures
        match (
            result,
            target_around(
                prepared.matcher,
                cli.before_context,
                cli.after_context,
                kind_of(name_view(file_name), name_view(extension)),
                content@,
                read@,
            ),
        ) {
            (Ok(sink), Ok(named)) => sink.wf() && sink.path == *path && sink.finished == named.1
                && are_json_events(prepared.matcher, named.0, sink.events@),
            (Err(message), Err(named)) => message@ == named,
            _ => false,
        },
{
    let bytes = match searchable_content(file_name, extension, content, read) {
        Ok(bytes) => bytes,
        Err(message) => return Err(message),
    };
    match search_around(&prepared.matcher, cli.before_context, cli.after_context, &bytes) {
        Ok(around) => {
            let mut sink = JsonEventSink::new(path.copy());
            sink.take_lines(&prepared.matcher, &around);
            Ok(sink)
        },
        Err(message) => Err(message),
    }
}

/// The lines of a file, as they are shown: of its searchable text, or of its content as it stands.
pub open spec fn shown_lines_of(
    kind: DocumentKind,
    content: Seq<u8>,
    read: Seq<ReadDocument>,
) -> Result<Seq<Seq<char>>, Seq<char>> {
    match searchable_text(kind, content, MAX_ARCHIVE_DEPTH as nat, read) {
        Ok(Some(text)) => Ok(text_lines(text)),
        Ok(None) => Ok(text_lines(decoded(content))),
        Err(message) => Err(message),
    }
}

/// The lines of a file, as they are shown.
pub fn read_file_lines(
    file_name: Option<&str>,
    extension: Option<&str>,
    content: Vec<u8>,
    read: &Vec<ReadDocument>,
) -> (result: Result<Vec<String>, String>)
    ensures
        parts_view(result) == shown_lines_of(
            kind_of(name_view(file_name), name_view(extension)),
            content@,
            read@,
        ),
{
    let kind = document_kind(file_name, extension);
    if let DocumentKind::Plain = kind {
        let text = lossy_text(&content);
        return Ok(split_lines(text.as_str()));
    }
    match extract_kind(kind, content, MAX_ARCHIVE_DEPTH, read) {
        Ok(Some(text)) => Ok(split_lines(text.as_str())),
        Ok(None) => Ok(Vec::new()),
        Err(message) => Err(message),
    }
}

/// What is said of a file that could not be searched.
pub open spec fn warning_text(path: Seq<char>, error: Seq<char>) -> Seq<char> {
    "warning: failed to search "@ + path + ": "@ + error
}

/// What is said of a file that could not be searched, where that is asked for.
pub fn search_warning_message(cli: &Cli, path: &str, error: &str) -> (message: Option<String>)
    ensures
        match message {
            Some(message) => cli.debug && message@ == warning_text(path@, error@),
            None => !cli.debug,
        },
{
    if cli.debug {
        let mut message = "warning: failed to search ".to_owned();
        message.append(path);
        message.append(": ");
        message.append(error);
        Some(message)
    } else {
        None
    }
}

/// An entry that the walk through the places to search came upon.
#[derive(Debug, Clone)]
pub struct WalkedEntry {
    /// The path of the entry.
    pub path: FilePath,
    /// Whether the entry is a file.
    pub is_file: bool,
}

/// The paths of the files among entries. Entries that could not be read are left out.
pub open spec fn files_among(entries: Seq<Option<WalkedEntry>>) -> Seq<FilePath>
    decreases entries.len(),
{
    if entries.len() == 0 {
        Seq::empty()
    } else {
        let before = files_among(entries.drop_last());
        match entries.last() {
            Some(entry) => if entry.is_file {
                before.push(entry.path)
            } else {
                before
            },
            None => before,
        }
    }
}

/// The paths of the files among entries.
pub fn list_files(entries: &Vec<Option<WalkedEntry>>) -> (files: Vec<FilePath>)
    ensures
        files@ == files_among(entries@),
{
    let mut files: Vec<FilePath> = Vec::new();
    let mut at: usize = 0;
    while at < entries.len()
        invariant
            at <= entries@.len(),
            files@ == files_among(entries@.take(at as int)),
        decreases entries@.len() - at,
    {
        assert(entries@.take(at + 1).drop_last() == entries@.take(at as int));
        if let Some(entry) = &entries[at] {
            if entry.is_file {
                files.push(entry.path.copy());
            }
        }
        at = at + 1;
    }
    assert(entries@.take(at as int) == entries@);
    files
}

/// A file that was searched.
#[derive(Debug, Clone)]
pub struct SearchedFile {
    /// The path of the file.
    pub path: FilePath,
    /// The number of lines that match; nothing where the search failed.
    pub count: Option<usize>,
}

/// Whether a file has a match.
pub open spec fn has_match(file: SearchedFile) -> bool {
    file.count is Some && file.count->0 > 0
}

/// Whether a file was searched and has no match.
pub open spec fn has_no_match(file: SearchedFile) -> bool {
    file.count is Some && file.count->0 == 0
}

/// The paths of the files with a match.
pub open spec fn paths_with_match(files: Seq<SearchedFile>) -> Seq<FilePath>
    decreases files.len(),
{
    if files.len() == 0 {
        Seq::empty()
    } else if has_match(files.last()) {
        paths_with_match(files.drop_last()).push(files.last().path)
    } else {
        paths_with_match(files.drop_last())
    }
}

/// The paths of the files that were searched and have no match.
pub open spec fn paths_without_match(files: Seq<SearchedFile>) -> Seq<FilePath>
    decreases files.len(),
{
    if files.len() == 0 {
        Seq::empty()
    } else if has_no_match(files.last()) {
        paths_without_match(files.drop_last()).push(files.last().path)
    } else {
        paths_without_match(files.drop_last())
    }
}

/// The counts of the files with a match.
pub open spec fn counts_of(files: Seq<SearchedFile>) -> Seq<CountEntry>
    decreases files.len(),
{
    if files.len() == 0 {
        Seq::empty()
    } else if has_match(files.last()) {
        counts_of(files.drop_last()).push(
            CountEntry { path: files.last().path, count: files.last().count->0 },
        )
    } else {
        counts_of(files.drop_last())
    }
}

/// The number of files that could be searched.
pub open spec fn searched_count(files: Seq<SearchedFile>) -> nat
    decreases files.len(),
{
    if files.len() == 0 {
        0
    } else {
        searched_count(files.drop_last()) + if files.last().count is Some {
            1nat
        } else {
            0nat
        }
    }
}

/// Every file that could be searched is listed either with the files that have a match or with
/// those that have none, and a count is told for each that has one.
pub proof fn files_have_a_match_or_none(files: Seq<SearchedFile>)
    ensures
        paths_with_match(files).len() + paths_without_match(files).len() == searched_count(files),
        counts_of(files).len() == paths_with_match(files).len(),
        forall|i: int|
            0 <= i < counts_of(files).len() ==> (#[trigger] counts_of(files)[i]).path
                == paths_with_match(files)[i] && counts_of(files)[i].count > 0,
    decreases files.len(),
{
    if files.len() > 0 {
        files_have_a_match_or_none(files.drop_last());
    }
}

/// The paths of the files with a match.
pub fn execute_files_with_matches(files: &Vec<SearchedFile>) -> (paths: Vec<FilePath>)
    ensures
        paths@ == paths_with_match(files@),
{
    let mut paths: Vec<FilePath> = Vec::new();
    let mut at: usize = 0;
    while at < files.len()
        invariant
            at <= files@.len(),
            paths@ == paths_with_match(files@.take(at as int)),
        decreases files@.len() - at,
    {
        assert(files@.take(at + 1).drop_last() == files@.take(at as int));
        if let Some(count) = files[at].count {
            if count > 0 {
                paths.push(files[at].path.copy());
            }
        }
        at = at + 1;
    }
    assert(files@.take(at as int) == files@);
    paths
}

/// The paths of the files that were searched and have no match.
pub fn execute_files_without_match(files: &Vec<SearchedFile>) -> (paths: Vec<FilePath>)
    ensures
        paths@ == paths_without_match(files@),
{
    let mut paths: Vec<FilePath> = Vec::new();
    let mut at: usize = 0;
    while at < files.len()
        invariant
            at <= files@.len(),
            paths@ == paths_without_match(files@.take(at as int)),
        decreases files@.len() - at,
    {
        assert(files@.take(at + 1).drop_last() == files@.take(at as int));
        if let Some(count) = files[at].count {
            if count == 0 {
                paths.push(files[at].path.copy());
            }
        }
        at = at + 1;
    }
    assert(files@.take(at as int) == files@);
    paths
}

/// The counts of the files with a match.
pub fn execute_count(files: &Vec<SearchedFile>) -> (counts: Vec<CountEntry>)
    ensures
        counts@ == counts_of(files@),
{
    let mut counts: Vec<CountEntry> = Vec::new();
    let mut at: usize = 0;
    while at < files.len()
        invariant
            at <= files@.len(),
            counts@ == counts_of(files@.take(at as int)),
        decreases files@.len() - at,
    {
        assert(files@.take(at + 1).drop_last() == files@.take(at as int));
        if let Some(count) = files[at].count {
            if count > 0 {
                counts.push(CountEntry { path: files[at].path.copy(), count });
            }
        }
        at = at + 1;
    }
    assert(files@.take(at as int) == files@);
    counts
}

/// The events of files one after the other. Files that could not be searched have none.
pub open spec fn events_of(files: Seq<Option<Vec<MatchEvent>>>) -> Seq<MatchEvent>
    decreases files.len(),
{
    if files.len() == 0 {
        Seq::empty()
    } else {
        events_of(files.drop_last()) + match files.last() {
            Some(events) => events@,
            None => Seq::empty(),
        }
    }
}

/// The events of files one after the other.
pub fn execute_standard_search(files: Vec<Option<Vec<MatchEvent>>>) -> (events: Vec<MatchEvent>)
    ensures
        events@ == events_of(files@),
{
    let mut files = files;
    let ghost all = files@;
    let mut reversed: Vec<Vec<MatchEvent>> = Vec::new();
    let ghost mut behind: Seq<MatchEvent> = Seq::empty();
    assert(events_of(all) == events_of(files@) + behind);
    while files.len() > 0
        invariant
            events_of(all) == events_of(files@) + behind,
            behind == joined_events(reversed@),
        decreases files@.len(),
    {
        let ghost before = files@;
        let ghost later = reversed@;
        if let Some(entry) = files.pop() {
            assert(files@ == before.drop_last());
            if let Some(events) = entry {
                reversed.push(events);
                proof {
                    assert(reversed@.drop_last() == later);
                    assert(joined_events(reversed@) == events@ + behind);
                    assert(events_of(before) + behind == events_of(files@) + (events@ + behind));
                    behind = events@ + behind;
                }
            } else {
                assert(events_of(before) == events_of(files@) + Seq::<MatchEvent>::empty());
                assert(events_of(before) == events_of(files@));
            }
        }
    }
    assert(events_of(all) == behind);
    let mut events: Vec<MatchEvent> = Vec::new();
    assert(events@ + joined_events(reversed@) == behind);
    while reversed.len() > 0
        invariant
            events@ + joined_events(reversed@) == behind,
        decreases reversed@.len(),
    {
        let ghost before = reversed@;
        let ghost earlier = events@;
        if let Some(mut more) = reversed.pop() {
            let ghost added = more@;
            assert(reversed@ == before.drop_last());
            events.append(&mut more);
            assert(events@ == earlier + added);
            assert(earlier + (added + joined_events(reversed@)) == events@ + joined_events(
                reversed@,
            ));
        }
    }
    events
}

/// The events of lists, the last list first.
spec fn joined_events(lists: Seq<Vec<MatchEvent>>) -> Seq<MatchEvent>
    decreases lists.len(),
{
    if lists.len() == 0 {
        Seq::empty()
    } else {
        lists.last()@ + joined_events(lists.drop_last())
    }
}

/// A ranked search while it collects lines.
#[derive(Debug, Clone)]
pub struct RankedSearch {
    /// How many lines are collected at most.
    pub limit: usize,
    /// The number of files searched.
    pub scanned_files: usize,
    /// The number of lines collected.
    pub candidate_lines: usize,
    /// Whether the limit kept lines or files out.
    pub truncated: bool,
    /// The files with collected lines.
    pub candidates: Vec<FileCandidate>,
}

/// The number of matched lines of files together.
pub open spec fn lines_together(candidates: Seq<FileCandidate>) -> nat
    decreases candidates.len(),
{
    if candidates.len() == 0 {
        0
    } else {
        lines_together(candidates.drop_last()) + candidates.last().matches@.len()
    }
}

/// A number one greater, or the greatest there is.
pub open spec fn one_more(number: usize) -> usize {
    if number < usize::MAX {
        (number + 1) as usize
    } else {
        number
    }
}

impl RankedSearch {
    /// Whether the lines collected are those of the candidates and within the limit, and whether
    /// the candidates belong to a query with `term_count` terms.
    pub open spec fn wf(self, term_count: nat) -> bool {
        &&& self.candidate_lines <= self.limit
        &&& self.candidate_lines == lines_together(self.candidates@)
        &&& forall|i: int|
            0 <= i < self.candidates@.len() ==> #[trigger] candidate_fits(
                self.candidates@[i],
                term_count,
            )
    }

    /// Begins a search that collects at most `limit` lines.
    pub fn new(limit: usize) -> (search: RankedSearch)
        ensures
            forall|term_count: nat| #[trigger] search.wf(term_count),
            search.limit == limit,
            search.scanned_files == 0,
            search.candidate_lines == 0,
            !search.truncated,
            search.candidates@.len() == 0,
    {
        RankedSearch {
            limit,
            scanned_files: 0,
            candidate_lines: 0,
            truncated: false,
            candidates: Vec::new(),
        }
    }

    /// Whether one more file is searched: it is as long as there is room for lines.
    pub fn accept_file(&mut self) -> (accepted: bool)
        ensures
            accepted == (old(self).candidate_lines < old(self).limit),
            final(self).limit == old(self).limit,
            final(self).candidate_lines == old(self).candidate_lines,
            final(self).candidates == old(self).candidates,
            final(self).scanned_files == if accepted {
                one_more(old(self).scanned_files)
            } else {
                old(self).scanned_files
            },
            final(self).truncated == (old(self).truncated || !accepted),
    {
        if self.candidate_lines >= self.limit {
            self.truncated = true;
            return false;
        }
        if self.scanned_files < usize::MAX {
            self.scanned_files = self.scanned_files + 1;
        }
        true
    }

    /// How many lines there is room for.
    pub open spec fn room(self) -> nat {
        (self.limit - self.candidate_lines) as nat
    }

    /// Takes the lines of a file that match, as long as there is room.
    pub fn take_file(&mut self, query: &Query, path: FilePath, found: &Vec<FoundLine>)
        requires
            old(self).wf(query.terms@.len()),
            numbers_ascend(found@),
        ensures
            final(self).wf(query.terms@.len()),
            final(self).limit == old(self).limit,
            final(self).scanned_files == old(self).scanned_files,
            final(self).candidate_lines == old(self).candidate_lines + lines_taken(
                found@.len(),
                old(self).room(),
            ),
            final(self).truncated == (old(self).truncated || lines_taken(
                found@.len(),
                old(self).room(),
            ) > 0 && found@.len() > old(self).room()),
            lines_taken(found@.len(), old(self).room()) == 0 ==> final(self).candidates@
                == old(self).candidates@,
            lines_taken(found@.len(), old(self).room()) > 0 ==> {
                let candidate = final(self).candidates@.last();
                &&& final(self).candidates@ == old(self).candidates@.push(candidate)
                &&& candidate.path == path
                &&& candidate.wf()
                &&& collected(
                    *query,
                    old(self).room() as usize,
                    found@,
                    candidate.matches@,
                )
                &&& in_line_order(candidate.matches@)
            },
    {
        let room: usize = self.limit - self.candidate_lines;
        let copy = copy_query(query);
        let mut sink = CollectingSink::new(copy, room);
        sink.take_lines(found);
        proof {
            assert(lines_fit(sink.lines@, query.terms@.len()));
            lemma_collected_view(copy, *query, room, found@, sink.lines@);
        }
        if sink.lines.len() == 0 {
            return ;
        }
        let ghost before = self.candidates@;
        self.candidate_lines = self.candidate_lines + sink.lines.len();
        self.truncated = self.truncated || sink.hit_limit;
        let candidate = FileCandidate::new(path, sink.lines);
        self.candidates.push(candidate);
        proof {
            assert(self.candidates@.drop_last() == before);
            assert forall|i: int| 0 <= i < self.candidates@.len() implies #[trigger] candidate_fits(
                self.candidates@[i],
                query.terms@.len(),
            ) by {
                if i < before.len() {
                    assert(candidate_fits(before[i], query.terms@.len()));
                    assert(self.candidates@[i] == before[i]);
                }
            }
        }
    }
}

/// Whether a candidate's lines belong to a query with `term_count` terms, and its plain path is
/// that of its path.
pub open spec fn candidate_fits(candidate: FileCandidate, term_count: nat) -> bool {
    candidate.wf() && candidate.fits(term_count)
}

/// How many of `found` lines are taken where there is room for `room`.
pub open spec fn lines_taken(found: nat, room: nat) -> nat {
    if found <= room {
        found
    } else {
        room
    }
}

/// The same query once more.
pub fn copy_query(query: &Query) -> (copy: Query)
    ensures
        copy@ == query@,
        copy.terms@.len() == query.terms@.len(),
{
    let mut terms: Vec<String> = Vec::new();
    let mut at: usize = 0;
    while at < query.terms.len()
        invariant
            at == terms@.len() <= query.terms@.len(),
            forall|i: int| 0 <= i < at ==> (#[trigger] terms@[i])@ == query.terms@[i]@,
        decreases query.terms@.len() - at,
    {
        terms.push(query.terms[at].clone());
        at = at + 1;
    }
    assert(texts(terms@) == texts(query.terms@));
    Query { normalized_phrase: query.normalized_phrase.clone(), terms }
}

/// Lines collected for a query are collected for every query with the same characters.
proof fn lemma_collected_view(
    first: Query,
    second: Query,
    limit: usize,
    found: Seq<FoundLine>,
    lines: Seq<LineMatchRecord>,
)
    requires
        first@ == second@,
        collected(first, limit, found, lines),
    ensures
        collected(second, limit, found, lines),
{
    assert(texts(first.terms@) == first@.terms);
    assert(texts(second.terms@) == second@.terms);
    assert forall|i: int| 0 <= i < lines.len() implies is_record(
        second,
        found[i].number,
        found[i].bytes@,
        #[trigger] lines[i],
    ) by {
        assert(is_record(first, found[i].number, found[i].bytes@, lines[i]));
    }
}

} // verus!
