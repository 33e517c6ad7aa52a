use crate::crawler::texts_view;
use crate::error::Error;
use crate::text::{chars_of, ends_with, has_suffix, lowercase, to_lowercase};
use vstd::prelude::*;
use vstd::string::{StrSliceExecFns, StringExecFns};

verus! {

/// Why a member cannot be had from an archive.
#[derive(Clone, Copy, Debug, PartialEq, Eq, Structural)]
pub enum ArchiveFault {
    /// The archive has no member of that name.
    Missing,
    /// The archive or the member cannot be read.
    Unreadable,
}

/// The names of the members of a zip archive, in the order in which the
/// archive's index holds them; `None` where the bytes are no archive or a
/// name cannot be decoded.
pub uninterp spec fn member_names(archive: Seq<u8>) -> Option<Seq<Seq<char>>>;

/// The unpacked bytes of the member `name` of a zip archive.
pub uninterp spec fn member_contents(archive: Seq<u8>, name: Seq<char>) -> Result<
    Seq<u8>,
    ArchiveFault,
>;

/// Opens the bytes with `ZipArchive::new` of zip and collects what
/// `ZipArchive::file_names` yields. The contract only names the result: the
/// archive keeps its members in an index map, which is walked in the order
/// of insertion.
#[verifier::external_body]
fn read_member_names(archive: &[u8]) -> (r: Option<Vec<String>>)
    ensures
        r is Some == member_names(archive@) is Some,
        r is Some ==> texts_view(r->Some_0@) == member_names(archive@)->Some_0,
{
    let opened = zip::ZipArchive::new(std::io::Cursor::new(archive)).ok()?;
    opened.file_names().map(|name| name.ok().map(String::from)).collect()
}

/// Opens the bytes with `ZipArchive::new` of zip, looks the member up with
/// `ZipArchive::by_name` and reads it to its end. `Missing` stands for the
/// crate's `FileNotFound`, `Unreadable` for every other failure. The
/// contract only names the result.
#[verifier::external_body]
fn read_member(archive: &[u8], name: &str) -> (r: Result<Vec<u8>, ArchiveFault>)
    ensures
        r is Ok == member_contents(archive@, name@) is Ok,
        r is Ok ==> r->Ok_0@ == member_contents(archive@, name@)->Ok_0,
        r is Err ==> r->Err_0 == member_contents(archive@, name@)->Err_0,
{
    let mut opened = zip::ZipArchive::new(std::io::Cursor::new(archive)).map_err(
        |_| ArchiveFault::Unreadable,
    )?;
    let mut member = match opened.by_name(name) {
        Ok(member) => member,
        Err(zip::result::ZipError::FileNotFound) => return Err(ArchiveFault::Missing),
        Err(_) => return Err(ArchiveFault::Unreadable),
    };
    let mut bytes = Vec::new();
    std::io::Read::read_to_end(&mut member, &mut bytes).map_err(|_| ArchiveFault::Unreadable)?;
    Ok(bytes)
}

/// A file that only describes the release.
pub open spec fn is_sidecar(name: Seq<char>) -> bool {
    has_suffix(lowercase(name), ".nfo"@)
}

/// A subtitle in the preferred format.
pub open spec fn is_preferred(name: Seq<char>) -> bool {
    has_suffix(lowercase(name), ".srt"@)
}

/// The names that are no sidecar and are preferred, or are not, as
/// `preferred` says, in their order.
pub open spec fn selected(names: Seq<Seq<char>>, preferred: bool) -> Seq<Seq<char>>
    decreases names.len(),
{
    if names.len() == 0 {
        Seq::empty()
    } else {
        let before = selected(names.drop_last(), preferred);
        let name = names.last();
        if !is_sidecar(name) && is_preferred(name) == preferred {
            before.push(name)
        } else {
            before
        }
    }
}

/// The names to offer: no sidecar; the preferred ones first; each of the
/// two groups in the order of the archive.
pub open spec fn ordered_members(names: Seq<Seq<char>>) -> Seq<Seq<char>> {
    selected(names, true) + selected(names, false)
}

/// What `selected` keeps is no sidecar, and is preferred or not as asked.
pub proof fn lemma_selected_is_as_asked(names: Seq<Seq<char>>, preferred: bool)
    ensures
        forall|i: int|
            0 <= i < selected(names, preferred).len() ==> !is_sidecar(
                #[trigger] selected(names, preferred)[i],
            ) && is_preferred(selected(names, preferred)[i]) == preferred,
    decreases names.len(),
{
    if names.len() > 0 {
        lemma_selected_is_as_asked(names.drop_last(), preferred);
        let before = selected(names.drop_last(), preferred);
        let kept = selected(names, preferred);
        assert forall|i: int| 0 <= i < kept.len() implies !is_sidecar(#[trigger] kept[i])
            && is_preferred(kept[i]) == preferred by {
            if i < before.len() {
                assert(kept[i] == before[i]);
            }
        }
    }
}

/// No sidecar is offered, and no preferred name comes after one that is
/// not preferred.
pub proof fn lemma_preferred_members_come_first(names: Seq<Seq<char>>)
    ensures
        forall|i: int|
            0 <= i < ordered_members(names).len() ==> !is_sidecar(
                #[trigger] ordered_members(names)[i],
            ),
        forall|i: int, j: int|
            0 <= i <= j < ordered_members(names).len() && is_preferred(
                #[trigger] ordered_members(names)[j],
            ) ==> is_preferred(#[trigger] ordered_members(names)[i]),
{
    lemma_selected_is_as_asked(names, true);
    lemma_selected_is_as_asked(names, false);
}

/// Orders the member names of an archive for the choice.
pub fn order_members(names: &Vec<String>) -> (offered: Vec<String>)
    ensures
        texts_view(offered@) == ordered_members(texts_view(names@)),
{
    let ghost all = texts_view(names@);
    let mut first: Vec<String> = Vec::new();
    let mut second: Vec<String> = Vec::new();
    let mut i: usize = 0;
    assert(texts_view(first@) =~= selected(all.take(0), true));
    assert(texts_view(second@) =~= selected(all.take(0), false));
    while i < names.len()
        invariant
            i <= names@.len(),
            all == texts_view(names@),
            texts_view(first@) == selected(all.take(i as int), true),
            texts_view(second@) == selected(all.take(i as int), false),
        decreases names@.len() - i,
    {
        let ghost first_before = texts_view(first@);
        let ghost second_before = texts_view(second@);
        proof {
            assert(all.take(i + 1).drop_last() =~= all.take(i as int));
            assert(all.take(i + 1).last() == names@[i as int]@);
        }
        let lower: String = to_lowercase(names[i].as_str());
        if !ends_with(lower.as_str(), ".nfo") {
            let name: String = names[i].clone();
            if ends_with(lower.as_str(), ".srt") {
                first.push(name);
                assert(texts_view(first@) =~= first_before.push(name@));
            } else {
                second.push(name);
                assert(texts_view(second@) =~= second_before.push(name@));
            }
        }
        i += 1;
    }
    assert(all.take(names@.len() as int) =~= all);
    let ghost first_done = texts_view(first@);
    let ghost second_done = texts_view(second@);
    first.append(&mut second);
    assert(texts_view(first@) =~= first_done + second_done);
    first
}

/// What `list_members` returns for the bytes of an archive.
pub open spec fn listed_members(archive: Seq<u8>) -> Result<Seq<Seq<char>>, Error> {
    match member_names(archive) {
        Some(names) => Ok(ordered_members(names)),
        None => Err(Error::IOError),
    }
}

/// The member names of an archive that are offered for the choice.
pub fn list_members(archive: &[u8]) -> (r: Result<Vec<String>, Error>)
    ensures
        match (r, listed_members(archive@)) {
            (Ok(names), Ok(expected)) => texts_view(names@) == expected,
            (Err(e), Err(expected)) => e == expected,
            _ => false,
        },
{
    match read_member_names(archive) {
        Some(names) => Ok(order_members(&names)),
        None => Err(Error::IOError),
    }
}

/// The bytes of the member `name`; `MemberNotFound` where the archive has
/// no such member, `IOError` where it cannot be read.
pub fn extract_member(archive: &[u8], name: &str) -> (r: Result<Vec<u8>, Error>)
    ensures
        match (r, member_contents(archive@, name@)) {
            (Ok(bytes), Ok(expected)) => bytes@ == expected,
            (Err(e), Err(fault)) => e == (match fault {
                ArchiveFault::Missing => Error::MemberNotFound,
                ArchiveFault::Unreadable => Error::IOError,
            }),
            _ => false,
        },
{
    match read_member(archive, name) {
        Ok(bytes) => Ok(bytes),
        Err(ArchiveFault::Missing) => Err(Error::MemberNotFound),
        Err(ArchiveFault::Unreadable) => Err(Error::IOError),
    }
}

/// Whether `d` is the place of the last dot of `name`.
pub open spec fn is_last_dot(name: Seq<char>, d: int) -> bool {
    &&& 0 <= d < name.len()
    &&& name[d] == '.'
    &&& forall|j: int| d < j < name.len() ==> #[trigger] name[j] != '.'
}

/// What follows the last dot of `name`; `None` for a name without a dot.
pub open spec fn extension_of(name: Seq<char>) -> Option<Seq<char>> {
    if exists|d: int| is_last_dot(name, d) {
        Some(name.skip((choose|d: int| is_last_dot(name, d)) + 1))
    } else {
        None
    }
}

/// The extension of a member's name, which the written file takes over.
pub fn member_extension(name: &str) -> (r: Result<String, Error>)
    ensures
        match (r, extension_of(name@)) {
            (Ok(text), Some(expected)) => text@ == expected,
            (Err(e), None) => e == Error::NoExtension,
            _ => false,
        },
{
    let chars: Vec<char> = chars_of(name);
    let n: usize = chars.len();
    let mut i: usize = n;
    while i > 0 && chars[i - 1] != '.'
        invariant
            i <= n,
            n == chars@.len(),
            forall|j: int| i <= j < n ==> #[trigger] chars@[j] != '.',
        decreases i,
    {
        i -= 1;
    }
    if i == 0 {
        assert forall|d: int| !is_last_dot(name@, d) by {
            if 0 <= d < n {
                assert(name@[d] != '.');
            }
        }
        Err(Error::NoExtension)
    } else {
        proof {
            assert(is_last_dot(name@, i - 1));
            let d = choose|d: int| is_last_dot(name@, d);
            assert(is_last_dot(name@, d));
            if d < i - 1 {
                assert(name@[i - 1] != '.');
            }
            if i - 1 < d {
                assert(name@[d] != '.');
            }
            assert(name@.subrange(i as int, n as int) =~= name@.skip(d + 1));
        }
        Ok(String::from_str(name.substring_char(i, n)))
    }
}

} // verus!
