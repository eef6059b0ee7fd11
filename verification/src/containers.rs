//! Files that hold other content: zip and tar archives, and gzip streams.

use std::io::{Cursor, Read};

use vstd::prelude::*;
use vstd::utf8::{decode_utf8, valid_utf8};

use flate2::read::MultiGzDecoder;
use tar::Archive;
use zip::ZipArchive;

use crate::text::result_text;

verus! {

/// A cursor of the standard library.
#[verifier::external_type_specification]
#[verifier::external_body]
#[verifier::reject_recursive_types(T)]
pub struct ExCursor<T>(std::io::Cursor<T>);

/// An archive of `zip`.
#[verifier::external_type_specification]
#[verifier::external_body]
#[verifier::reject_recursive_types(R)]
pub struct ExZipArchive<R>(zip::ZipArchive<R>);

/// The bytes that a zip archive was opened on.
pub uninterp spec fn zip_content(archive: ZipArchive<Cursor<Vec<u8>>>) -> Seq<u8>;

/// The text of the error that `ZipArchive::new` gives for bytes, where it gives one.
pub uninterp spec fn zip_error(content: Seq<u8>) -> Option<Seq<char>>;

/// The number of entries that `ZipArchive::len` tells.
pub uninterp spec fn zip_len(content: Seq<u8>) -> usize;

/// The name of an entry of a zip archive, or the text of the error of `ZipArchive::by_index`.
pub uninterp spec fn zip_name(content: Seq<u8>, index: nat) -> Result<Seq<char>, Seq<char>>;

/// What is read from an entry of a zip archive, or the text of the error.
pub uninterp spec fn zip_data(content: Seq<u8>, index: nat) -> Result<Seq<u8>, Seq<char>>;

/// `ZipArchive::new` of `zip` on bytes in memory: an archive that gives back what the bytes hold,
/// or an error.
#[verifier::external_body]
pub(crate) fn open_zip(content: Vec<u8>) -> (result: Result<ZipArchive<Cursor<Vec<u8>>>, String>)
    ensures
        match (result, zip_error(content@)) {
            (Ok(archive), None) => zip_content(archive) == content@,
            (Err(message), Some(named)) => message@ == named,
            _ => false,
        },
{
    ZipArchive::new(Cursor::new(content)).map_err(|error| error.to_string())
}

/// `ZipArchive::len` of `zip`: the number of entries.
#[verifier::external_body]
pub(crate) fn zip_entries(archive: &ZipArchive<Cursor<Vec<u8>>>) -> (count: usize)
    ensures
        count == zip_len(zip_content(*archive)),
{
    archive.len()
}

/// `ZipArchive::by_index` of `zip` and `ZipFile::name`: the name of an entry, or an error. The
/// archive stays as it is.
#[verifier::external_body]
pub(crate) fn zip_entry_name(archive: &mut ZipArchive<Cursor<Vec<u8>>>, index: usize) -> (result:
    Result<String, String>)
    ensures
        zip_content(*final(archive)) == zip_content(*old(archive)),
        result_text(result) == zip_name(zip_content(*old(archive)), index as nat),
{
    match archive.by_index(index) {
        Ok(entry) => Ok(entry.name().to_owned()),
        Err(error) => Err(error.to_string()),
    }
}

/// Bytes or the text of an error, as sequences.
pub open spec fn bytes_view(result: Result<Vec<u8>, String>) -> Result<Seq<u8>, Seq<char>> {
    match result {
        Ok(bytes) => Ok(bytes@),
        Err(message) => Err(message@),
    }
}

/// `ZipArchive::by_index` of `zip` and `Read::read_to_end`: what an entry holds, or an error. The
/// archive stays as it is.
#[verifier::external_body]
pub(crate) fn zip_entry_data(archive: &mut ZipArchive<Cursor<Vec<u8>>>, index: usize) -> (result:
    Result<Vec<u8>, String>)
    ensures
        zip_content(*final(archive)) == zip_content(*old(archive)),
        bytes_view(result) == zip_data(zip_content(*old(archive)), index as nat),
{
    let mut data: Vec<u8> = Vec::new();
    match archive.by_index(index) {
        Ok(mut entry) => match entry.read_to_end(&mut data) {
            Ok(_) => Ok(data),
            Err(error) => Err(error.to_string()),
        },
        Err(error) => Err(error.to_string()),
    }
}

/// Whether a block of a tar archive may be the header of a sparse file whose map goes on in the
/// blocks behind it.
pub open spec fn extended_sparse_at(content: Seq<u8>, at: int) -> bool {
    at + 512 <= content.len() && content[at + 156] == 0x53 && content[at + 482] == 1
}

/// Whether the header at `at` tells a size of at least 2 to the 63.
pub open spec fn huge_size_at(content: Seq<u8>, at: int) -> bool {
    content[at + 124] >= 0x80 && content[at + 128] >= 0x80
}

/// Whether a row of 19 decimal digits begins at `at`.
pub open spec fn long_number_at(content: Seq<u8>, at: int) -> bool {
    at + 19 <= content.len() && forall|k: int|
        0 <= k < 19 ==> 48 <= #[trigger] content[at + k] <= 57
}

/// Whether what stands at `at` may be an extension record with a size of at least 2 to the 63. There
/// may be a sign before the number.
pub open spec fn huge_record_at(content: Seq<u8>, at: int) -> bool {
    &&& 0 <= at
    &&& at + 24 <= content.len()
    &&& content[at] == 115
    &&& content[at + 1] == 105
    &&& content[at + 2] == 122
    &&& content[at + 3] == 101
    &&& content[at + 4] == 61
    &&& long_number_at(content, at + 5) || long_number_at(content, at + 6)
}

/// Whether there may be an extension record with a size of at least 2 to the 63.
pub open spec fn has_huge_record(content: Seq<u8>) -> bool {
    exists|at: int| #[trigger] huge_record_at(content, at)
}

/// Whether the block number `block` of a tar archive may be the header of a sparse file with a size
/// that leaves no room for the blocks of its map.
pub open spec fn overflows_at(content: Seq<u8>, block: int) -> bool {
    &&& 0 <= block
    &&& extended_sparse_at(content, block * 512)
    &&& huge_size_at(content, block * 512) || has_huge_record(content)
}

/// Whether the places of members may be too great to be counted.
pub open spec fn tar_overflows(content: Seq<u8>) -> bool {
    exists|block: int| #[trigger] overflows_at(content, block)
}

/// Whether a row of 19 decimal digits begins at `at`.
fn is_long_number(content: &Vec<u8>, at: usize) -> (result: bool)
    ensures
        result == long_number_at(content@, at as int),
{
    let length: usize = content.len();
    if length < 19 || at > length - 19 {
        return false;
    }
    let mut k: usize = 0;
    while k < 19
        invariant
            k <= 19,
            length == content@.len(),
            at + 19 <= length,
            forall|j: int| 0 <= j < k ==> 48 <= #[trigger] content@[at + j] <= 57,
        decreases 19 - k,
    {
        if content[at + k] < 48 || content[at + k] > 57 {
            assert(!(48 <= content@[at + k] <= 57));
            return false;
        }
        k = k + 1;
    }
    true
}

/// Whether there may be an extension record with a size of at least 2 to the 63.
fn is_huge_record_among(content: &Vec<u8>) -> (result: bool)
    ensures
        result == has_huge_record(content@),
{
    let length: usize = content.len();
    if length < 24 {
        return false;
    }
    let last: usize = length - 24;
    let mut at: usize = 0;
    while at <= last
        invariant
            length == content@.len(),
            last + 24 == length,
            at <= last + 1,
            forall|i: int| 0 <= i < at ==> !#[trigger] huge_record_at(content@, i),
        decreases last + 1 - at,
    {
        if content[at] == 115 && content[at + 1] == 105 && content[at + 2] == 122 && content[at + 3]
            == 101 && content[at + 4] == 61 && (is_long_number(content, at + 5) || is_long_number(
            content,
            at + 6,
        )) {
            assert(huge_record_at(content@, at as int));
            return true;
        }
        at = at + 1;
    }
    false
}

/// Whether the places of members may be too great to be counted.
pub fn does_tar_overflow(content: &Vec<u8>) -> (result: bool)
    ensures
        result == tar_overflows(content@),
{
    let length: usize = content.len();
    let count: usize = length / 512;
    let mut block: usize = 0;
    while block < count
        invariant
            length == content@.len(),
            count == length / 512,
            block <= count,
            forall|i: int| 0 <= i < block ==> !#[trigger] overflows_at(content@, i),
        decreases count - block,
    {
        let at: usize = block * 512;
        if content[at + 156] == 0x53 && content[at + 482] == 1 {
            if content[at + 124] >= 0x80 && content[at + 128] >= 0x80 {
                assert(overflows_at(content@, block as int));
                return true;
            }
            if is_huge_record_among(content) {
                assert(overflows_at(content@, block as int));
                return true;
            }
        }
        block = block + 1;
    }
    false
}

/// A member of a tar archive.
#[derive(Debug, Clone)]
pub struct TarMember {
    /// The path of the member, as bytes.
    pub path: Vec<u8>,
    /// Whether the member is a regular file.
    pub is_file: bool,
}

/// The member number `index` that `Entries` of `tar` gives: its path and whether it is a regular
/// file, or the text of the error; nothing behind the last.
pub uninterp spec fn tar_member(content: Seq<u8>, index: nat) -> Option<
    Result<(Seq<u8>, bool), Seq<char>>,
>;

/// What is read from the member number `index` of a tar archive, or the text of the error; nothing
/// behind the last.
pub uninterp spec fn tar_data(content: Seq<u8>, index: nat) -> Option<Result<Seq<u8>, Seq<char>>>;

/// A member or the text of an error, as sequences.
pub open spec fn member_view(result: Option<Result<TarMember, String>>) -> Option<
    Result<(Seq<u8>, bool), Seq<char>>,
> {
    match result {
        Some(Ok(member)) => Some(Ok((member.path@, member.is_file))),
        Some(Err(message)) => Some(Err(message@)),
        None => None,
    }
}

/// Bytes or the text of an error, where there are any, as sequences.
pub open spec fn data_view(result: Option<Result<Vec<u8>, String>>) -> Option<
    Result<Seq<u8>, Seq<char>>,
> {
    match result {
        Some(result) => Some(bytes_view(result)),
        None => None,
    }
}

/// `Archive::entries_with_seek` of `tar` on bytes in memory, and its iterator: the member number
/// `index`. Each member has a header of its own among the bytes, so that there are no more members
/// than bytes. The places of members are added up in a `u64` without a test where the map of a
/// sparse file goes on in further blocks, so sizes that leave no room for them are left out.
#[verifier::external_body]
pub(crate) fn tar_entry(content: &Vec<u8>, index: usize) -> (result: Option<
    Result<TarMember, String>,
>)
    requires
        !tar_overflows(content@),
    ensures
        member_view(result) == tar_member(content@, index as nat),
        result is Some && result->0 is Ok ==> index < content@.len(),
{
    let mut archive = Archive::new(Cursor::new(content.as_slice()));
    match archive.entries_with_seek() {
        Ok(mut entries) => match entries.nth(index) {
            Some(Ok(entry)) => Some(Ok(TarMember {
                path: entry.path_bytes().into_owned(),
                is_file: entry.header().entry_type().is_file(),
            })),
            Some(Err(error)) => Some(Err(error.to_string())),
            None => None,
        },
        Err(error) => Some(Err(error.to_string())),
    }
}

/// `Archive::entries_with_seek` of `tar` on bytes in memory, its iterator, and `Read::read_to_end`:
/// what the member number `index` holds. Sizes are bounded as for the members themselves.
#[verifier::external_body]
pub(crate) fn tar_entry_data(content: &Vec<u8>, index: usize) -> (result: Option<
    Result<Vec<u8>, String>,
>)
    requires
        !tar_overflows(content@),
    ensures
        data_view(result) == tar_data(content@, index as nat),
{
    let mut data: Vec<u8> = Vec::new();
    let mut archive = Archive::new(Cursor::new(content.as_slice()));
    let read = match archive.entries_with_seek() {
        Ok(mut entries) => match entries.nth(index) {
            Some(entry) => entry.and_then(|mut entry| entry.read_to_end(&mut data)),
            None => return None,
        },
        Err(error) => Err(error),
    };
    match read {
        Ok(_) => Some(Ok(data)),
        Err(error) => Some(Err(error.to_string())),
    }
}

/// What `MultiGzDecoder` of `flate2` makes of bytes, or the text of its error.
pub uninterp spec fn gunzipped(content: Seq<u8>) -> Result<Seq<u8>, Seq<char>>;

/// `MultiGzDecoder` of `flate2` and `Read::read_to_end`: what was compressed.
#[verifier::external_body]
pub(crate) fn gunzip(content: &Vec<u8>) -> (result: Result<Vec<u8>, String>)
    ensures
        bytes_view(result) == gunzipped(content@),
{
    let mut data: Vec<u8> = Vec::new();
    match MultiGzDecoder::new(content.as_slice()).read_to_end(&mut data) {
        Ok(_) => Ok(data),
        Err(error) => Err(error.to_string()),
    }
}

/// [`String::from_utf8`]: the text that bytes encode in UTF-8, where they do.
#[verifier::external_body]
pub(crate) fn utf8_text(bytes: Vec<u8>) -> (text: Option<String>)
    ensures
        match text {
            Some(text) => valid_utf8(bytes@) && text@ == decode_utf8(bytes@),
            None => !valid_utf8(bytes@),
        },
{
    String::from_utf8(bytes).ok()
}

} // verus!
