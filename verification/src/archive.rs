//! A run's log bundle: a zip archive with one file for each log.

use vstd::prelude::*;
use std::io::Cursor;
use std::io::Read;
use zip::result::ZipError;
use zip::ZipArchive;

verus! {

/// `zip::ZipArchive`, an archive that was opened over a reader. Nothing
/// of its inside is known here.
#[verifier::external_type_specification]
#[verifier::external_body]
#[verifier::reject_recursive_types(R)]
pub struct ExZipArchive<R>(ZipArchive<R>);

/// `std::io::Cursor`, the reader over bytes in memory.
#[verifier::external_type_specification]
#[verifier::external_body]
#[verifier::reject_recursive_types(T)]
pub struct ExCursor<T>(Cursor<T>);

/// `zip::result::ZipError`, carried from the call that failed to the place
/// where its words are taken.
#[verifier::external_type_specification]
#[verifier::external_body]
pub struct ExZipError(ZipError);

/// What reading one file of an archive gives: its name and its bytes, or
/// `None` where the file cannot be read.
pub type FileModel = Option<(Seq<char>, Seq<u8>)>;

/// The files that an opened archive holds, in the order of its directory.
pub uninterp spec fn zip_contents(archive: ZipArchive<Cursor<Vec<u8>>>) -> Seq<
    Option<(Seq<char>, Seq<u8>)>,
>;

/// The files of the archive that `blob` encodes, `None` where it encodes
/// none.
pub uninterp spec fn zip_directory(blob: Seq<u8>) -> Option<Seq<Option<(Seq<char>, Seq<u8>)>>>;

/// `zip::ZipArchive::new` over the bytes in memory. Not proved: that it
/// succeeds exactly on the blobs that encode an archive, and that the
/// archive it gives holds that archive's files.
#[verifier::external_body]
fn zip_open(blob: Vec<u8>) -> (r: Result<ZipArchive<Cursor<Vec<u8>>>, ZipError>)
    ensures
        match r {
            Ok(archive) => zip_directory(blob@) == Some(zip_contents(archive)),
            Err(_) => zip_directory(blob@) is None,
        },
{
    ZipArchive::new(Cursor::new(blob))
}

/// `zip::ZipArchive::len`. Not proved: that it is the number of files.
#[verifier::external_body]
fn zip_len(archive: &ZipArchive<Cursor<Vec<u8>>>) -> (n: usize)
    ensures
        n == zip_contents(*archive).len(),
{
    archive.len()
}

/// `zip::ZipArchive::by_index`, then the file's `name` and all that it
/// yields to `read_to_end`. Not proved: that this reads file `index` of the
/// archive and leaves the archive's files as they were, and that it fails
/// where the file cannot be read or `index` is behind the last file.
#[verifier::external_body]
fn zip_read(archive: &mut ZipArchive<Cursor<Vec<u8>>>, index: usize) -> (r: Result<
    (String, Vec<u8>),
    ZipError,
>)
    ensures
        zip_contents(*final(archive)) == zip_contents(*old(archive)),
        index >= zip_contents(*old(archive)).len() ==> r is Err,
        index < zip_contents(*old(archive)).len() ==> match r {
            Ok(file) => zip_contents(*old(archive))[index as int] == Some((file.0@, file.1@)),
            Err(_) => zip_contents(*old(archive))[index as int] is None,
        },
{
    let mut file = archive.by_index(index)?;
    let name = file.name()?.into_owned();
    let mut bytes = Vec::new();
    file.read_to_end(&mut bytes)?;
    Ok((name, bytes))
}

/// The words of a `zip::result::ZipError`, through its `Display`. Nothing
/// is claimed of them.
#[verifier::external_body]
fn zip_error_text(error: &ZipError) -> (r: String) {
    format!("{error}")
}

/// One log of a run: its path within the archive and all of its text.
#[derive(Debug)]
pub struct LogEntry {
    pub name: String,
    pub text: Vec<u8>,
}

/// Why an archive, or one file of it, could not be read.
#[derive(Debug)]
pub struct ArchiveError {
    pub reason: String,
}

/// An opened archive.
pub struct ArchiveHandle {
    archive: ZipArchive<Cursor<Vec<u8>>>,
}

impl ArchiveHandle {
    /// The files of the archive, in the order of its directory.
    pub closed spec fn contents(&self) -> Seq<FileModel> {
        zip_contents(self.archive)
    }

    /// The number of files.
    pub fn len(&self) -> (n: usize)
        ensures
            n == self.contents().len(),
    {
        zip_len(&self.archive)
    }

    /// File `index` of the archive. It fails where the file cannot be read
    /// and where `index` is behind the last file. The archive stays as it
    /// was either way.
    pub fn entry(&mut self, index: usize) -> (r: Result<LogEntry, ArchiveError>)
        ensures
            final(self).contents() == old(self).contents(),
            index >= old(self).contents().len() ==> r is Err,
            index < old(self).contents().len() ==> match r {
                Ok(entry) => old(self).contents()[index as int] == Some((entry.name@, entry.text@)),
                Err(_) => old(self).contents()[index as int] is None,
            },
    {
        match zip_read(&mut self.archive, index) {
            Ok((name, text)) => Ok(LogEntry { name, text }),
            Err(error) => Err(ArchiveError { reason: zip_error_text(&error) }),
        }
    }
}

/// What became of the file at one place of an archive.
pub open spec fn entry_view(entry: Result<LogEntry, ArchiveError>) -> FileModel {
    match entry {
        Ok(log) => Some((log.name@, log.text@)),
        Err(_) => None,
    }
}

impl ArchiveHandle {
    /// All files of the archive, in the order of its directory, each read
    /// or failed for itself.
    pub fn entries(&mut self) -> (all: Vec<Result<LogEntry, ArchiveError>>)
        ensures
            final(self).contents() == old(self).contents(),
            all@.map_values(|entry: Result<LogEntry, ArchiveError>| entry_view(entry)) == old(
                self,
            ).contents(),
    {
        let ghost files = self.contents();
        let ghost view = |entry: Result<LogEntry, ArchiveError>| entry_view(entry);
        let count: usize = self.len();
        let mut all: Vec<Result<LogEntry, ArchiveError>> = Vec::new();
        let mut i: usize = 0;
        while i < count
            invariant
                i <= count,
                count == files.len(),
                self.contents() == files,
                view == |entry: Result<LogEntry, ArchiveError>| entry_view(entry),
                all@.map_values(view) =~= files.take(i as int),
            decreases count - i,
        {
            let ghost before = all@;
            let entry = self.entry(i);
            all.push(entry);
            proof {
                assert(all@.map_values(view) =~= before.map_values(view).push(entry_view(entry)));
                assert(files.take(i + 1) =~= files.take(i as int).push(files[i as int]));
            }
            i = i + 1;
        }
        proof {
            assert(files.take(i as int) =~= files);
        }
        all
    }
}

/// Opens log bundles.
pub struct LogArchiveReader {}

impl LogArchiveReader {
    /// Whether `blob` encodes an archive.
    pub fn is_archive(blob: &Vec<u8>) -> (r: bool)
        ensures
            r == zip_directory(blob@) is Some,
    {
        Self::open(blob.clone()).is_ok()
    }

    /// Opens `blob` as an archive. It fails exactly where `blob` encodes
    /// none.
    pub fn open(blob: Vec<u8>) -> (r: Result<ArchiveHandle, ArchiveError>)
        ensures
            match r {
                Ok(handle) => zip_directory(blob@) == Some(handle.contents()),
                Err(_) => zip_directory(blob@) is None,
            },
    {
        match zip_open(blob) {
            Ok(archive) => Ok(ArchiveHandle { archive }),
            Err(error) => Err(ArchiveError { reason: zip_error_text(&error) }),
        }
    }
}

} // verus!
