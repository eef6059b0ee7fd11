//! Laws on archives and office documents, which hold entries.

use vstd::prelude::*;

use super::sheets::lemma_in_joined;
use crate::bytes::decoded;
use crate::containers::{
    gunzipped, tar_data, tar_member, tar_overflows, zip_data, zip_error, zip_len, zip_name,
};
use crate::extract::{
    document_parts, document_text, documents_in, entry_text, holds_document_text, member_kind,
    member_text, searchable_text, tar_documents, tar_parts, zip_documents, zip_parts, DocumentKind,
};
use crate::reading::{read_text, ReadDocument};
use crate::text::{joined, occurs_in};
use crate::xml::{xml_text, XmlTextMode};
use vstd::utf8::{decode_utf8, valid_utf8};

verus! {

/// What is kept of a sequence with one more item at its front.
proof fn lemma_filter_front<A>(items: Seq<A>, keep: spec_fn(A) -> bool)
    requires
        items.len() > 0,
    ensures
        items.filter(keep) == if keep(items[0]) {
            seq![items[0]] + items.skip(1).filter(keep)
        } else {
            items.skip(1).filter(keep)
        },
{
    let front = seq![items[0]];
    let rest = items.skip(1);
    assert(items == front + rest);
    Seq::filter_distributes_over_add(front, rest, keep);
    assert(front.filter(keep) == if keep(items[0]) {
        front
    } else {
        Seq::<A>::empty()
    }) by {
        reveal(Seq::filter);
        assert(front.drop_last() == Seq::<A>::empty());
        assert(front.drop_last().filter(keep) == Seq::<A>::empty());
        assert(front.last() == items[0]);
    }
}

/// The text of an entry of an office document is that of its XML, which has to be UTF-8.
pub proof fn entries_are_read_as_xml(mode: XmlTextMode, bytes: Seq<u8>, message: Seq<char>)
    ensures
        valid_utf8(bytes) ==> entry_text(mode, Ok(bytes)) == xml_text(decode_utf8(bytes), mode),
        !valid_utf8(bytes) ==> entry_text(mode, Ok(bytes)) == Err::<Seq<char>, Seq<char>>(
            "stream did not contain valid UTF-8"@,
        ),
        entry_text(mode, Err(message)) == Err::<Seq<char>, Seq<char>>(message),
{
}

/// Where each entry of an office document from `index` on has a text, or is not one that holds text,
/// the parts of the document are these texts in order, without those that are empty.
pub proof fn parts_are_the_texts_of_the_entries(
    content: Seq<u8>,
    mode: XmlTextMode,
    entries: Seq<Seq<char>>,
    index: nat,
)
    requires
        entries.len() == zip_len(content),
        index <= entries.len(),
        forall|i: int|
            0 <= i < entries.len() ==> (#[trigger] zip_name(content, i as nat)) is Ok,
        forall|i: int|
            #![trigger entries[i]]
            0 <= i < entries.len() ==> if holds_document_text(
                mode,
                zip_name(content, i as nat)->Ok_0,
            ) {
                entry_text(mode, zip_data(content, i as nat)) == Ok::<Seq<char>, Seq<char>>(
                    entries[i],
                )
            } else {
                entries[i].len() == 0
            },
    ensures
        document_parts(content, mode, index) == Ok::<Seq<Seq<char>>, Seq<char>>(
            entries.skip(index as int).filter(|text: Seq<char>| text.len() > 0),
        ),
    decreases entries.len() - index,
{
    let keep = |text: Seq<char>| text.len() > 0;
    let rest = entries.skip(index as int);
    if index < entries.len() {
        parts_are_the_texts_of_the_entries(content, mode, entries, index + 1);
        lemma_filter_front(rest, keep);
        assert(rest[0] == entries[index as int]);
        assert(rest.skip(1) == entries.skip(index as int + 1));
        assert(zip_name(content, index) is Ok);
        assert(Seq::<Seq<char>>::empty() + entries.skip(index as int + 1).filter(keep) == entries.skip(
            index as int + 1,
        ).filter(keep));
    } else {
        reveal(Seq::filter);
        assert(rest == Seq::<Seq<char>>::empty());
    }
}

/// The text of an office document is made of the texts of its entries, in order, with line breaks
/// between them; every text of an entry stands in it.
pub proof fn a_document_holds_the_texts_of_its_entries(
    content: Seq<u8>,
    mode: XmlTextMode,
    entries: Seq<Seq<char>>,
)
    requires
        zip_error(content) is None,
        entries.len() == zip_len(content),
        forall|i: int|
            0 <= i < entries.len() ==> (#[trigger] zip_name(content, i as nat)) is Ok,
        forall|i: int|
            #![trigger entries[i]]
            0 <= i < entries.len() ==> if holds_document_text(
                mode,
                zip_name(content, i as nat)->Ok_0,
            ) {
                entry_text(mode, zip_data(content, i as nat)) == Ok::<Seq<char>, Seq<char>>(
                    entries[i],
                )
            } else {
                entries[i].len() == 0
            },
    ensures
        document_text(content, mode) == Ok::<Seq<char>, Seq<char>>(
            joined(entries.filter(|text: Seq<char>| text.len() > 0), "\n"@),
        ),
        forall|i: int|
            0 <= i < entries.len() && (#[trigger] entries[i]).len() > 0 ==> occurs_in(
                entries[i],
                document_text(content, mode)->Ok_0,
            ),
{
    let keep = |text: Seq<char>| text.len() > 0;
    parts_are_the_texts_of_the_entries(content, mode, entries, 0);
    assert(entries.skip(0) == entries);
    let kept = entries.filter(keep);
    assert forall|i: int| 0 <= i < entries.len() && (#[trigger] entries[i]).len() > 0 implies
        occurs_in(entries[i], document_text(content, mode)->Ok_0) by {
        entries.lemma_filter_contains(keep, i);
        assert(keep(entries[i]));
        assert(kept.contains(entries[i]));
        let place = choose|place: int| 0 <= place < kept.len() && kept[place] == entries[i];
        lemma_in_joined(kept, "\n"@, place);
    }
}

/// The first entry of an office document that cannot be had makes the document fail with its error.
pub proof fn the_first_bad_entry_fails_the_document(
    content: Seq<u8>,
    mode: XmlTextMode,
    index: nat,
    bad: nat,
    message: Seq<char>,
)
    requires
        index <= bad < zip_len(content),
        forall|i: nat|
            index <= i < bad ==> (#[trigger] zip_name(content, i)) is Ok && (holds_document_text(
                mode,
                zip_name(content, i)->Ok_0,
            ) ==> entry_text(mode, zip_data(content, i)) is Ok),
        zip_name(content, bad) == Err::<Seq<char>, Seq<char>>(message) || zip_name(content, bad)
            is Ok && holds_document_text(mode, zip_name(content, bad)->Ok_0) && entry_text(
            mode,
            zip_data(content, bad),
        ) == Err::<Seq<char>, Seq<char>>(message),
    ensures
        document_parts(content, mode, index) == Err::<Seq<Seq<char>>, Seq<char>>(message),
    decreases bad - index,
{
    if index < bad {
        assert(zip_name(content, index) is Ok);
        the_first_bad_entry_fails_the_document(content, mode, index + 1, bad, message);
    }
}

/// Where each member of a zip archive from `index` on can be had, the parts of the archive are those
/// of the members with text, in order: the path of the member and its text. Directories have none.
pub proof fn parts_are_those_of_the_members(
    content: Seq<u8>,
    depth: nat,
    read: Seq<ReadDocument>,
    members: Seq<(Seq<char>, Seq<char>)>,
    index: nat,
)
    requires
        members.len() == zip_len(content),
        index <= members.len(),
        forall|i: int|
            #![trigger members[i]]
            0 <= i < members.len() ==> {
                &&& zip_name(content, i as nat) == Ok::<Seq<char>, Seq<char>>(members[i].0)
                &&& if "/"@.is_suffix_of(members[i].0) {
                    members[i].1.len() == 0
                } else {
                    zip_data(content, i as nat) is Ok && member_text(
                        members[i].0,
                        zip_data(content, i as nat)->Ok_0,
                        depth,
                        read,
                    ) == Ok::<Seq<char>, Seq<char>>(members[i].1)
                }
            },
    ensures
        zip_parts(content, depth, index, read) == Ok::<Seq<Seq<char>>, Seq<char>>(
            members.skip(index as int).filter(
                |member: (Seq<char>, Seq<char>)| member.1.len() > 0,
            ).map_values(
                |member: (Seq<char>, Seq<char>)|
                    "Archive entry: "@ + member.0 + "\n"@ + member.1,
            ),
        ),
    decreases members.len() - index,
{
    let keep = |member: (Seq<char>, Seq<char>)| member.1.len() > 0;
    let told = |member: (Seq<char>, Seq<char>)| "Archive entry: "@ + member.0 + "\n"@ + member.1;
    let rest = members.skip(index as int);
    if index < members.len() {
        parts_are_those_of_the_members(content, depth, read, members, index + 1);
        lemma_filter_front(rest, keep);
        let member = members[index as int];
        assert(rest[0] == member);
        assert(rest.skip(1) == members.skip(index as int + 1));
        let more = members.skip(index as int + 1).filter(keep);
        assert((seq![member] + more).map_values(told) == seq![told(member)] + more.map_values(
            told,
        ));
        assert(Seq::<Seq<char>>::empty() + more.map_values(told) == more.map_values(told));
    } else {
        reveal(Seq::filter);
        assert(rest == Seq::<(Seq<char>, Seq<char>)>::empty());
        assert(rest.filter(keep).map_values(told) == Seq::<Seq<char>>::empty());
    }
}

/// Where each member of a tar archive from `index` on can be had, the parts of the archive are those
/// of the regular files with text, in order: the path of the member and its text.
pub proof fn parts_are_those_of_the_files(
    content: Seq<u8>,
    depth: nat,
    read: Seq<ReadDocument>,
    members: Seq<(Seq<u8>, Seq<char>)>,
    index: nat,
)
    requires
        members.len() <= content.len(),
        index <= members.len(),
        tar_member(content, members.len()) is None,
        forall|i: int|
            #![trigger members[i]]
            0 <= i < members.len() ==> {
                &&& tar_member(content, i as nat) == Some(
                    Ok::<(Seq<u8>, bool), Seq<char>>((members[i].0, true)),
                ) && tar_data(content, i as nat) is Some && tar_data(content, i as nat)->0 is Ok
                    && member_text(
                    decoded(members[i].0),
                    tar_data(content, i as nat)->0->Ok_0,
                    depth,
                    read,
                ) == Ok::<Seq<char>, Seq<char>>(members[i].1) || tar_member(content, i as nat)
                    == Some(Ok::<(Seq<u8>, bool), Seq<char>>((members[i].0, false)))
                    && members[i].1.len() == 0
            },
    ensures
        tar_parts(content, depth, index, read) == Ok::<Seq<Seq<char>>, Seq<char>>(
            members.skip(index as int).filter(
                |member: (Seq<u8>, Seq<char>)| member.1.len() > 0,
            ).map_values(
                |member: (Seq<u8>, Seq<char>)|
                    "Archive entry: "@ + decoded(member.0) + "\n"@ + member.1,
            ),
        ),
    decreases members.len() - index,
{
    let keep = |member: (Seq<u8>, Seq<char>)| member.1.len() > 0;
    let told = |member: (Seq<u8>, Seq<char>)|
        "Archive entry: "@ + decoded(member.0) + "\n"@ + member.1;
    let rest = members.skip(index as int);
    if index < members.len() {
        parts_are_those_of_the_files(content, depth, read, members, index + 1);
        lemma_filter_front(rest, keep);
        let member = members[index as int];
        assert(rest[0] == member);
        assert(rest.skip(1) == members.skip(index as int + 1));
        let more = members.skip(index as int + 1).filter(keep);
        assert((seq![member] + more).map_values(told) == seq![told(member)] + more.map_values(
            told,
        ));
        assert(Seq::<Seq<char>>::empty() + more.map_values(told) == more.map_values(told));
    } else {
        reveal(Seq::filter);
        assert(rest == Seq::<(Seq<u8>, Seq<char>)>::empty());
        assert(rest.filter(keep).map_values(told) == Seq::<Seq<char>>::empty());
    }
}

/// A member of a zip archive that cannot be had, or whose text cannot, fails the archive with its
/// error; so does any such member behind members that can be had.
pub proof fn a_bad_member_fails_a_zip_archive(
    content: Seq<u8>,
    depth: nat,
    read: Seq<ReadDocument>,
    index: nat,
    message: Seq<char>,
)
    requires
        index < zip_len(content),
    ensures
        zip_name(content, index) == Err::<Seq<char>, Seq<char>>(message) ==> zip_parts(
            content,
            depth,
            index,
            read,
        ) == Err::<Seq<Seq<char>>, Seq<char>>(message),
        zip_name(content, index) is Ok && !"/"@.is_suffix_of(zip_name(content, index)->Ok_0)
            && zip_data(content, index) == Err::<Seq<u8>, Seq<char>>(message) ==> zip_parts(
            content,
            depth,
            index,
            read,
        ) == Err::<Seq<Seq<char>>, Seq<char>>(message),
        zip_name(content, index) is Ok && !"/"@.is_suffix_of(zip_name(content, index)->Ok_0)
            && zip_data(content, index) is Ok && member_text(
            zip_name(content, index)->Ok_0,
            zip_data(content, index)->Ok_0,
            depth,
            read,
        ) == Err::<Seq<char>, Seq<char>>(message) ==> zip_parts(content, depth, index, read)
            == Err::<Seq<Seq<char>>, Seq<char>>(message),
        zip_parts(content, depth, index + 1, read) is Err ==> zip_parts(
            content,
            depth,
            index,
            read,
        ) is Err,
        zip_name(content, index) is Err || zip_data(content, index) is Err && !"/"@.is_suffix_of(
            zip_name(content, index)->Ok_0,
        ) ==> zip_documents(content, depth, index).len() == 0,
{
}

/// A member of a tar archive that cannot be had, or whose text cannot, fails the archive with its
/// error; so does any such member behind members that can be had. Behind the last there is nothing.
pub proof fn a_bad_member_fails_a_tar_archive(
    content: Seq<u8>,
    depth: nat,
    read: Seq<ReadDocument>,
    index: nat,
    message: Seq<char>,
)
    requires
        index < content.len(),
    ensures
        tar_member(content, index) is None ==> tar_parts(content, depth, index, read) == Ok::<
            Seq<Seq<char>>,
            Seq<char>,
        >(Seq::empty()),
        tar_member(content, index) == Some(Err::<(Seq<u8>, bool), Seq<char>>(message))
            ==> tar_parts(content, depth, index, read) == Err::<Seq<Seq<char>>, Seq<char>>(
            message,
        ),
        match (tar_member(content, index), tar_data(content, index)) {
            (Some(Ok((path, is_file))), Some(Err(error))) => is_file ==> tar_parts(
                content,
                depth,
                index,
                read,
            ) == Err::<Seq<Seq<char>>, Seq<char>>(error),
            (Some(Ok((path, is_file))), Some(Ok(data))) => {
                &&& is_file && member_text(decoded(path), data, depth, read) == Err::<
                    Seq<char>,
                    Seq<char>,
                >(message) ==> tar_parts(content, depth, index, read) == Err::<
                    Seq<Seq<char>>,
                    Seq<char>,
                >(message)
                &&& tar_parts(content, depth, index + 1, read) is Err ==> tar_parts(
                    content,
                    depth,
                    index,
                    read,
                ) is Err
            },
            _ => true,
        },
        depth > 0 && tar_overflows(content) ==> searchable_text(
            DocumentKind::Tar,
            content,
            depth,
            read,
        ) == Err::<Option<Seq<char>>, Seq<char>>("size overflow"@),
{
}

/// A member of an archive has the text of the document or archive that it is; a member of another
/// kind has its bytes as text, unless a NUL byte is among them.
pub proof fn members_have_the_text_of_their_kind(
    path: Seq<char>,
    content: Seq<u8>,
    depth: nat,
    read: Seq<ReadDocument>,
)
    ensures
        match searchable_text(member_kind(path), content, depth, read) {
            Err(message) => member_text(path, content, depth, read) == Err::<Seq<char>, Seq<char>>(
                message,
            ),
            Ok(Some(text)) => member_text(path, content, depth, read) == Ok::<
                Seq<char>,
                Seq<char>,
            >(text),
            Ok(None) => {
                &&& content.contains(0u8) ==> member_text(path, content, depth, read) == Ok::<
                    Seq<char>,
                    Seq<char>,
                >(Seq::empty())
                &&& !content.contains(0u8) ==> member_text(path, content, depth, read) == Ok::<
                    Seq<char>,
                    Seq<char>,
                >(decoded(content))
            },
        },
{
}

/// Each kind of file has a text of its own: office documents that of their entries, workbooks and
/// PDF documents that of their readings, archives that of their members, one archive less deep; lock
/// files have an empty text, and other files none.
pub proof fn files_have_the_text_of_their_kind(
    content: Seq<u8>,
    depth: nat,
    read: Seq<ReadDocument>,
)
    ensures
        searchable_text(DocumentKind::Plain, content, depth, read) == Ok::<
            Option<Seq<char>>,
            Seq<char>,
        >(None),
        searchable_text(DocumentKind::LockFile, content, depth, read) == Ok::<
            Option<Seq<char>>,
            Seq<char>,
        >(Some(Seq::empty())),
        document_text(content, XmlTextMode::Word) matches Ok(text) ==> searchable_text(
            DocumentKind::Docx,
            content,
            depth,
            read,
        ) == Ok::<Option<Seq<char>>, Seq<char>>(Some(text)),
        document_text(content, XmlTextMode::Presentation) matches Ok(text) ==> searchable_text(
            DocumentKind::Pptx,
            content,
            depth,
            read,
        ) == Ok::<Option<Seq<char>>, Seq<char>>(Some(text)),
        read_text(read, DocumentKind::Xlsx, content) matches Ok(text) ==> searchable_text(
            DocumentKind::Xlsx,
            content,
            depth,
            read,
        ) == Ok::<Option<Seq<char>>, Seq<char>>(Some(text)),
        read_text(read, DocumentKind::Pdf, content) matches Ok(text) ==> searchable_text(
            DocumentKind::Pdf,
            content,
            depth,
            read,
        ) == Ok::<Option<Seq<char>>, Seq<char>>(Some(text)),
        depth > 0 && zip_error(content) is None ==> match zip_parts(
            content,
            (depth - 1) as nat,
            0,
            read,
        ) {
            Ok(parts) => searchable_text(DocumentKind::Zip, content, depth, read) == Ok::<
                Option<Seq<char>>,
                Seq<char>,
            >(Some(joined(parts, "\n"@))),
            Err(message) => searchable_text(DocumentKind::Zip, content, depth, read) == Err::<
                Option<Seq<char>>,
                Seq<char>,
            >(message),
        },
        depth > 0 && !tar_overflows(content) ==> match tar_parts(
            content,
            (depth - 1) as nat,
            0,
            read,
        ) {
            Ok(parts) => searchable_text(DocumentKind::Tar, content, depth, read) == Ok::<
                Option<Seq<char>>,
                Seq<char>,
            >(Some(joined(parts, "\n"@))),
            Err(message) => searchable_text(DocumentKind::Tar, content, depth, read) == Err::<
                Option<Seq<char>>,
                Seq<char>,
            >(message),
        },
        depth > 0 ==> match gunzipped(content) {
            Ok(data) => searchable_text(DocumentKind::TarGz, content, depth, read)
                == searchable_text(DocumentKind::Tar, data, depth, read),
            Err(message) => searchable_text(DocumentKind::TarGz, content, depth, read) == Err::<
                Option<Seq<char>>,
                Seq<char>,
            >(message),
        },
        document_text(content, XmlTextMode::Word) matches Err(message) ==> searchable_text(
            DocumentKind::Docx,
            content,
            depth,
            read,
        ) == Err::<Option<Seq<char>>, Seq<char>>(message),
        document_text(content, XmlTextMode::Presentation) matches Err(message) ==> searchable_text(
            DocumentKind::Pptx,
            content,
            depth,
            read,
        ) == Err::<Option<Seq<char>>, Seq<char>>(message),
        read_text(read, DocumentKind::Xlsx, content) matches Err(message) ==> searchable_text(
            DocumentKind::Xlsx,
            content,
            depth,
            read,
        ) == Err::<Option<Seq<char>>, Seq<char>>(message),
        read_text(read, DocumentKind::Pdf, content) matches Err(message) ==> searchable_text(
            DocumentKind::Pdf,
            content,
            depth,
            read,
        ) == Err::<Option<Seq<char>>, Seq<char>>(message),
        zip_error(content) matches Some(message) ==> document_text(content, XmlTextMode::Word)
            == Err::<Seq<char>, Seq<char>>(message) && document_text(
            content,
            XmlTextMode::Presentation,
        ) == Err::<Seq<char>, Seq<char>>(message) && (depth > 0 ==> searchable_text(
            DocumentKind::Zip,
            content,
            depth,
            read,
        ) == Err::<Option<Seq<char>>, Seq<char>>(message)),
{
}

/// The documents to be read are workbooks and PDF documents: the file itself, or those that its
/// members are or hold, in order.
pub proof fn documents_are_listed_member_by_member(
    content: Seq<u8>,
    depth: nat,
    index: nat,
)
    ensures
        documents_in(DocumentKind::Xlsx, content, depth) == seq![(DocumentKind::Xlsx, content)],
        documents_in(DocumentKind::Pdf, content, depth) == seq![(DocumentKind::Pdf, content)],
        documents_in(DocumentKind::Plain, content, depth).len() == 0,
        documents_in(DocumentKind::LockFile, content, depth).len() == 0,
        documents_in(DocumentKind::Docx, content, depth).len() == 0,
        documents_in(DocumentKind::Pptx, content, depth).len() == 0,
        depth > 0 && zip_error(content) is None ==> documents_in(DocumentKind::Zip, content, depth)
            == zip_documents(content, (depth - 1) as nat, 0),
        depth > 0 && !tar_overflows(content) ==> documents_in(DocumentKind::Tar, content, depth)
            == tar_documents(content, (depth - 1) as nat, 0),
        depth > 0 && gunzipped(content) is Ok ==> documents_in(DocumentKind::TarGz, content, depth)
            == documents_in(DocumentKind::Tar, gunzipped(content)->Ok_0, depth),
        index >= zip_len(content) ==> zip_documents(content, depth, index).len() == 0,
        index < zip_len(content) && zip_name(content, index) is Ok && "/"@.is_suffix_of(
            zip_name(content, index)->Ok_0,
        ) ==> zip_documents(content, depth, index) == zip_documents(content, depth, index + 1),
        index < zip_len(content) && zip_name(content, index) is Ok && !"/"@.is_suffix_of(
            zip_name(content, index)->Ok_0,
        ) && zip_data(content, index) is Ok ==> zip_documents(content, depth, index)
            == documents_in(
            member_kind(zip_name(content, index)->Ok_0),
            zip_data(content, index)->Ok_0,
            depth,
        ) + zip_documents(content, depth, index + 1),
        tar_member(content, index) is None ==> tar_documents(content, depth, index).len() == 0,
        match (tar_member(content, index), tar_data(content, index)) {
            (Some(Ok((path, is_file))), Some(Ok(data))) => index < content.len() ==> tar_documents(
                content,
                depth,
                index,
            ) == (if is_file {
                documents_in(member_kind(decoded(path)), data, depth)
            } else {
                Seq::empty()
            }) + tar_documents(content, depth, index + 1),
            _ => true,
        },
{
}

} // verus!
