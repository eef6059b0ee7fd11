//! Laws on what a search tells of files.

use vstd::prelude::*;

use crate::around::lines_around;
use crate::bytes::decoded;
use crate::candidate::{FileCandidate, FilePath};
use crate::extract::{searchable_text, DocumentKind, MAX_ARCHIVE_DEPTH};
use crate::matcher::lines_matched;
use crate::reading::ReadDocument;
use crate::report::CountEntry;
use crate::search::{
    counts_of, events_of, files_among, lines_taken, lines_together, paths_with_match,
    paths_without_match, searched_bytes, shown_lines_of, target_around, target_count, target_lines,
    warning_text, SearchedFile, WalkedEntry,
};
use crate::sinks::MatchEvent;
use crate::text::text_lines;
use grep_regex::RegexMatcher;
use vstd::utf8::encode_utf8;

verus! {

/// Every count is that of one searched file: there are places among the files, in ascending order,
/// one for each count, each with the path and the very count that are told; and every file with a
/// positive count is at one of them.
pub proof fn counts_are_those_of_the_files(files: Seq<SearchedFile>) -> (places: Seq<int>)
    ensures
        places.len() == counts_of(files).len(),
        forall|i: int|
            0 <= i < places.len() ==> 0 <= #[trigger] places[i] < files.len()
                && counts_of(files)[i].path == files[places[i]].path && files[places[i]].count
                == Some(counts_of(files)[i].count) && counts_of(files)[i].count > 0,
        forall|i: int, j: int| 0 <= i < j < places.len() ==> places[i] < places[j],
        forall|k: int|
            0 <= k < files.len() && (#[trigger] files[k]).count is Some && files[k].count->0 > 0
                ==> places.contains(k),
    decreases files.len(),
{
    if files.len() == 0 {
        Seq::empty()
    } else {
        let front = files.drop_last();
        let before = counts_are_those_of_the_files(front);
        let last = files.len() - 1;
        assert forall|k: int| 0 <= k < last implies front[k] == #[trigger] files[k] by {}
        if files.last().count is Some && files.last().count->0 > 0 {
            let places = before.push(last);
            assert forall|k: int|
                0 <= k < files.len() && (#[trigger] files[k]).count is Some && files[k].count->0
                    > 0 implies places.contains(k) by {
                if k == last {
                    assert(places[before.len() as int] == k);
                } else {
                    assert(front[k].count is Some);
                    let i = choose|i: int| 0 <= i < before.len() && before[i] == k;
                    assert(places[i] == k);
                }
            }
            assert forall|i: int| 0 <= i < places.len() implies 0 <= #[trigger] places[i]
                < files.len() && counts_of(files)[i].path == files[places[i]].path
                && files[places[i]].count == Some(counts_of(files)[i].count) && counts_of(
                files,
            )[i].count > 0 by {
                if i < before.len() {
                    assert(places[i] == before[i]);
                    assert(counts_of(files)[i] == counts_of(front)[i]);
                    assert(front[before[i]] == files[before[i]]);
                }
            }
            assert forall|i: int, j: int| 0 <= i < j < places.len() implies places[i]
                < places[j] by {
                assert(places[i] == before[i]);
                assert(0 <= before[i] < front.len());
            }
            places
        } else {
            assert forall|k: int|
                0 <= k < files.len() && (#[trigger] files[k]).count is Some && files[k].count->0
                    > 0 implies before.contains(k) by {
                assert(front[k].count is Some);
            }
            before
        }
    }
}

/// The counts of some files and of further files are the counts of them all: what is told of a file
/// does not hang on other files.
pub proof fn counts_of_files_add_up(first: Seq<SearchedFile>, second: Seq<SearchedFile>)
    ensures
        counts_of(first + second) == counts_of(first) + counts_of(second),
        counts_of(Seq::<SearchedFile>::empty()) == Seq::<CountEntry>::empty(),
        first.len() == 1 && first[0].count is Some && first[0].count->0 > 0 ==> counts_of(first)
            == seq![CountEntry { path: first[0].path, count: first[0].count->0 }],
        first.len() == 1 && (first[0].count is None || first[0].count->0 == 0) ==> counts_of(first)
            == Seq::<CountEntry>::empty(),
    decreases second.len(),
{
    if first.len() == 1 {
        assert(first.drop_last() == Seq::<SearchedFile>::empty());
        assert(counts_of(first.drop_last()) == Seq::<CountEntry>::empty());
    }
    if second.len() == 0 {
        assert(first + second == first);
    } else {
        assert((first + second).drop_last() == first + second.drop_last());
        counts_of_files_add_up(first, second.drop_last());
    }
}

/// The files listed with a match are those with a positive count, and those listed without one are
/// those whose count is zero, each in the order of the search; a file that could not be searched is
/// in neither list.
pub proof fn lists_part_the_searched_files(files: Seq<SearchedFile>)
    ensures
        paths_with_match(files) == files.filter(
            |file: SearchedFile| file.count is Some && file.count->0 > 0,
        ).map_values(|file: SearchedFile| file.path),
        paths_without_match(files) == files.filter(
            |file: SearchedFile| file.count == Some(0usize),
        ).map_values(|file: SearchedFile| file.path),
    decreases files.len(),
{
    reveal(Seq::filter);
    let matched = |file: SearchedFile| file.count is Some && file.count->0 > 0;
    let unmatched = |file: SearchedFile| file.count == Some(0usize);
    let path = |file: SearchedFile| file.path;
    if files.len() > 0 {
        let front = files.drop_last();
        lists_part_the_searched_files(front);
        assert(front.filter(matched).push(files.last()).map_values(path) == front.filter(
            matched,
        ).map_values(path).push(files.last().path));
        assert(front.filter(unmatched).push(files.last()).map_values(path) == front.filter(
            unmatched,
        ).map_values(path).push(files.last().path));
    } else {
        assert(files.filter(matched).map_values(path) == Seq::<FilePath>::empty());
        assert(files.filter(unmatched).map_values(path) == Seq::<FilePath>::empty());
    }
}

/// The files among what the walk came upon are the entries that could be read and are files, in the
/// order of the walk.
pub proof fn files_are_the_entries_that_are_files(entries: Seq<Option<WalkedEntry>>)
    ensures
        files_among(entries) == entries.filter(
            |entry: Option<WalkedEntry>| entry is Some && entry->0.is_file,
        ).map_values(|entry: Option<WalkedEntry>| entry->0.path),
    decreases entries.len(),
{
    reveal(Seq::filter);
    let is_file = |entry: Option<WalkedEntry>| entry is Some && entry->0.is_file;
    let path = |entry: Option<WalkedEntry>| entry->0.path;
    if entries.len() > 0 {
        let front = entries.drop_last();
        files_are_the_entries_that_are_files(front);
        assert(front.filter(is_file).push(entries.last()).map_values(path) == front.filter(
            is_file,
        ).map_values(path).push(entries.last()->0.path));
    } else {
        assert(entries.filter(is_file).map_values(path) == Seq::<FilePath>::empty());
    }
}

/// The events of some files and of further files are the events of them all, in order; a file that
/// could not be searched has none.
pub proof fn events_of_files_add_up(
    first: Seq<Option<Vec<MatchEvent>>>,
    second: Seq<Option<Vec<MatchEvent>>>,
)
    ensures
        events_of(first + second) == events_of(first) + events_of(second),
        events_of(Seq::<Option<Vec<MatchEvent>>>::empty()) == Seq::<MatchEvent>::empty(),
        first.len() == 1 && first[0] is Some ==> events_of(first) == first[0]->0@,
        first.len() == 1 && first[0] is None ==> events_of(first) == Seq::<MatchEvent>::empty(),
    decreases second.len(),
{
    if first.len() == 1 {
        assert(first.drop_last() == Seq::<Option<Vec<MatchEvent>>>::empty());
        assert(events_of(first.drop_last()) == Seq::<MatchEvent>::empty());
        assert(first.last() == first[0]);
    }
    if second.len() == 0 {
        assert(first + second == first);
    } else {
        assert((first + second).drop_last() == first + second.drop_last());
        events_of_files_add_up(first, second.drop_last());
    }
}

/// The matched lines of some files and of further files are those of them all.
pub proof fn lines_of_files_add_up(first: Seq<FileCandidate>, second: Seq<FileCandidate>)
    ensures
        lines_together(first + second) == lines_together(first) + lines_together(second),
        lines_together(Seq::<FileCandidate>::empty()) == 0,
        first.len() == 1 ==> lines_together(first) == first[0].matches@.len(),
    decreases second.len(),
{
    if first.len() == 1 {
        assert(first.drop_last() == Seq::<FileCandidate>::empty());
        assert(lines_together(first.drop_last()) == 0);
    }
    if second.len() == 0 {
        assert(first + second == first);
    } else {
        assert((first + second).drop_last() == first + second.drop_last());
        lines_of_files_add_up(first, second.drop_last());
    }
}

/// As many lines are taken as there are and as there is room for: none is left out while there is
/// room.
pub proof fn lines_are_taken_while_there_is_room(found: nat, room: nat)
    ensures
        lines_taken(found, room) <= found,
        lines_taken(found, room) <= room,
        lines_taken(found, room) == found || lines_taken(found, room) == room,
{
}

/// The number of lines told of a file is the number of its lines that match; a search that stops at
/// the first tells one where there is any.
pub proof fn counts_are_numbers_of_lines(found: Result<Seq<(u64, Seq<u8>)>, Seq<char>>)
    ensures
        found matches Ok(lines) ==> target_count(found, false) == Ok::<nat, Seq<char>>(
            lines.len(),
        ) && target_count(found, true) == Ok::<nat, Seq<char>>(
            if lines.len() > 0 {
                1
            } else {
                0
            },
        ),
        forall|stop: bool|
            found is Err ==> #[trigger] target_count(found, stop) == Err::<nat, Seq<char>>(
                found->Err_0,
            ),
{
}

/// What is searched of a file and what is shown of it are the same text: its searchable text where
/// it is a document or an archive, and its content where it is not.
pub proof fn what_is_searched_is_what_is_shown(
    kind: DocumentKind,
    content: Seq<u8>,
    read: Seq<ReadDocument>,
)
    ensures
        match searchable_text(kind, content, MAX_ARCHIVE_DEPTH as nat, read) {
            Ok(Some(text)) => searched_bytes(kind, content, read) == Ok::<Seq<u8>, Seq<char>>(
                encode_utf8(text),
            ) && shown_lines_of(kind, content, read) == Ok::<Seq<Seq<char>>, Seq<char>>(
                text_lines(text),
            ),
            Ok(None) => searched_bytes(kind, content, read) == Ok::<Seq<u8>, Seq<char>>(content)
                && shown_lines_of(kind, content, read) == Ok::<Seq<Seq<char>>, Seq<char>>(
                text_lines(decoded(content)),
            ),
            Err(message) => searched_bytes(kind, content, read) == Err::<Seq<u8>, Seq<char>>(
                message,
            ) && shown_lines_of(kind, content, read) == Err::<Seq<Seq<char>>, Seq<char>>(message),
        },
{
}

/// The lines of a file that match are those of its searchable text or, where it has none, of its
/// content; a file whose text cannot be had cannot be searched.
pub proof fn files_are_searched_in_their_text(
    matcher: RegexMatcher,
    before: usize,
    after: usize,
    kind: DocumentKind,
    content: Seq<u8>,
    read: Seq<ReadDocument>,
)
    ensures
        match searchable_text(kind, content, MAX_ARCHIVE_DEPTH as nat, read) {
            Ok(Some(text)) => target_lines(matcher, kind, content, read) == lines_matched(
                matcher,
                encode_utf8(text),
            ) && target_around(matcher, before, after, kind, content, read) == lines_around(
                matcher,
                before,
                after,
                encode_utf8(text),
            ),
            Ok(None) => target_lines(matcher, kind, content, read) == lines_matched(
                matcher,
                content,
            ) && target_around(matcher, before, after, kind, content, read) == lines_around(
                matcher,
                before,
                after,
                content,
            ),
            Err(message) => target_lines(matcher, kind, content, read) is Err && target_lines(
                matcher,
                kind,
                content,
                read,
            )->Err_0 == message && target_around(matcher, before, after, kind, content, read)
                is Err && target_around(matcher, before, after, kind, content, read)->Err_0
                == message,
        },
{
}

/// Archives are read four deep.
pub proof fn archives_are_read_four_deep()
    ensures
        MAX_ARCHIVE_DEPTH == 4,
{
}

/// A warning names the file and the error.
pub proof fn warnings_name_file_and_error(path: Seq<char>, error: Seq<char>)
    ensures
        warning_text(path, error).skip(warning_text(path, error).len() - error.len()) == error,
        warning_text(path, error).take("warning: failed to search "@.len() as int)
            == "warning: failed to search "@,
        warning_text(path, error).subrange(
            "warning: failed to search "@.len() as int,
            ("warning: failed to search "@.len() + path.len()) as int,
        ) == path,
{
}

} // verus!
