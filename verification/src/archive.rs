//! Entries of ZIP archives held in memory, read with the `zip` crate.

use vstd::prelude::*;

verus! {

/// Why an entry of an archive could not be read as text.
#[derive(PartialEq, Eq, Structural, Clone, Copy, Debug)]
pub enum ZipReadError {
    /// The bytes are not a ZIP archive.
    Archive,
    /// The archive has no such entry (or it cannot be opened).
    Missing,
    /// The entry's content is not UTF-8 text or cannot be decompressed.
    Read,
}

/// Whether `zip::ZipArchive::new` reads the bytes as an archive.
pub uninterp spec fn spec_zip_opens(data: Seq<u8>) -> bool;

/// The number of entries that `zip::ZipArchive::len` gives for the archive in `data`.
pub uninterp spec fn spec_zip_len(data: Seq<u8>) -> nat;

/// The name of the entry at `index`, through `ZipArchive::by_index` and `ZipFile::name`, or the
/// message of the error that either gave.
pub uninterp spec fn spec_zip_entry_name(data: Seq<u8>, index: nat) -> Result<
    Seq<char>,
    Seq<char>,
>;

/// The content of the entry at `index` as UTF-8 text, through `ZipArchive::by_index` and
/// `std::io::read_to_string`, or `None` when either fails.
pub uninterp spec fn spec_zip_entry_text(data: Seq<u8>, index: nat) -> Option<Seq<char>>;

/// The content of the entry called `name` as UTF-8 text, through `ZipArchive::by_name`
/// (`Missing` when it fails) and `std::io::read_to_string` (`Read` when it fails).
pub uninterp spec fn spec_zip_read_named(data: Seq<u8>, name: Seq<char>) -> Result<
    Seq<char>,
    ZipReadError,
>;

/// The content of the entry called `name`, with `Archive` when the bytes are no archive.
pub open spec fn spec_zip_named_text(data: Seq<u8>, name: Seq<char>) -> Result<
    Seq<char>,
    ZipReadError,
> {
    if spec_zip_opens(data) {
        spec_zip_read_named(data, name)
    } else {
        Err(ZipReadError::Archive)
    }
}

/// `zip::ZipArchive`, an archive opened on a reader.
#[verifier::external_type_specification]
#[verifier::external_body]
#[verifier::reject_recursive_types(R)]
pub struct ExZipArchive<R>(zip::ZipArchive<R>);

/// `std::io::Cursor`, a reader over bytes in memory.
#[verifier::external_type_specification]
#[verifier::external_body]
#[verifier::reject_recursive_types(T)]
pub struct ExIoCursor<T>(std::io::Cursor<T>);

/// An archive opened on bytes in memory, with those bytes.
pub struct ZipBook<'a> {
    archive: zip::ZipArchive<std::io::Cursor<&'a [u8]>>,
    data: Ghost<Seq<u8>>,
}

impl<'a> ZipBook<'a> {
    /// The bytes the archive was opened on.
    pub closed spec fn data(&self) -> Seq<u8> {
        self.data@
    }
}

/// `zip::ZipArchive::new` on a `std::io::Cursor` over `data`.
/// Claimed: whether it succeeds is a function of `data`.
#[verifier::external_body]
pub(crate) fn zip_open<'a>(data: &'a [u8]) -> (r: Option<ZipBook<'a>>)
    ensures
        match r {
            Some(b) => spec_zip_opens(data@) && b.data() == data@,
            None => !spec_zip_opens(data@),
        },
{
    match zip::ZipArchive::new(std::io::Cursor::new(data)) {
        Ok(archive) => Some(ZipBook { archive, data: Ghost(data@) }),
        Err(_) => None,
    }
}

/// `zip::ZipArchive::len`.
/// Claimed: the count is a function of the archive's bytes.
#[verifier::external_body]
pub(crate) fn zip_len(b: &ZipBook) -> (n: usize)
    ensures
        n == spec_zip_len(b.data()),
{
    b.archive.len()
}

/// `zip::ZipArchive::by_index` then `ZipFile::name`; an error is returned as its message.
/// Claimed: the result is a function of the archive's bytes and `index`.
#[verifier::external_body]
pub(crate) fn zip_name_at(b: &mut ZipBook, index: usize) -> (r: Result<String, String>)
    ensures
        final(b).data() == old(b).data(),
        match r {
            Ok(n) => spec_zip_entry_name(old(b).data(), index as nat) == Ok::<
                Seq<char>,
                Seq<char>,
            >(n@),
            Err(m) => spec_zip_entry_name(old(b).data(), index as nat) == Err::<
                Seq<char>,
                Seq<char>,
            >(m@),
        },
{
    b.archive.by_index(index).and_then(|f| f.name().map(|n| n.into_owned())).map_err(|e| e.to_string())
}

/// `zip::ZipArchive::by_index` then `std::io::read_to_string` on the entry.
/// Claimed: the result is a function of the archive's bytes and `index`.
#[verifier::external_body]
pub(crate) fn zip_text_at(b: &mut ZipBook, index: usize) -> (r: Option<String>)
    ensures
        final(b).data() == old(b).data(),
        match r {
            Some(t) => spec_zip_entry_text(old(b).data(), index as nat) == Some(t@),
            None => spec_zip_entry_text(old(b).data(), index as nat) is None,
        },
{
    std::io::read_to_string(b.archive.by_index(index).ok()?).ok()
}

/// `zip::ZipArchive::by_name` then `std::io::read_to_string` on the entry; a failure of each is
/// reported as `Missing` and `Read` in turn.
/// Claimed: the result is a function of the archive's bytes and `name`.
#[verifier::external_body]
pub(crate) fn zip_text_named(b: &mut ZipBook, name: &str) -> (r: Result<String, ZipReadError>)
    ensures
        final(b).data() == old(b).data(),
        match r {
            Ok(t) => spec_zip_read_named(old(b).data(), name@) == Ok::<Seq<char>, ZipReadError>(t@),
            Err(e) => spec_zip_read_named(old(b).data(), name@) == Err::<Seq<char>, ZipReadError>(e),
        },
{
    let file = b.archive.by_name(name).map_err(|_| ZipReadError::Missing)?;
    std::io::read_to_string(file).map_err(|_| ZipReadError::Read)
}

/// Reads the entry called `name` of the archive in `data` as text.
pub fn zip_named_text(data: &[u8], name: &str) -> (r: Result<String, ZipReadError>)
    ensures
        match r {
            Ok(t) => spec_zip_named_text(data@, name@) == Ok::<Seq<char>, ZipReadError>(t@),
            Err(e) => spec_zip_named_text(data@, name@) == Err::<Seq<char>, ZipReadError>(e),
        },
{
    match zip_open(data) {
        None => Err(ZipReadError::Archive),
        Some(mut b) => zip_text_named(&mut b, name),
    }
}

} // verus!
