//! Zip archives as plain values: the entries read from the bytes of an
//! archive, and the bytes of an archive written from files.

use crate::error::TextureError;
use vstd::prelude::*;

verus! {

/// `std::io::Cursor`, carried through as it is.
#[verifier::external_type_specification]
#[verifier::external_body]
#[verifier::reject_recursive_types(T)]
pub struct ExCursor<T>(std::io::Cursor<T>);

/// `zip::ZipArchive`, an opened archive; what it holds is `archive_entries`.
#[verifier::external_type_specification]
#[verifier::external_body]
#[verifier::reject_recursive_types(R)]
pub struct ExZipArchive<R>(zip::ZipArchive<R>);

/// `zip::result::ZipError`, of which nothing is read.
#[verifier::external_type_specification]
#[verifier::external_body]
pub struct ExZipError(zip::result::ZipError);

/// One entry of an archive, as plain values.
pub struct EntryView {
    /// The stored name; `None` where it cannot be decoded.
    pub name: Option<Seq<char>>,
    /// Whether the entry is a directory.
    pub is_dir: bool,
    /// The content; `None` where it cannot be read.
    pub data: Option<Seq<u8>>,
}

/// One entry of an archive.
#[derive(Debug, PartialEq, Eq)]
pub struct ArchiveEntry {
    /// The stored name; `None` where it cannot be decoded.
    pub name: Option<String>,
    /// Whether the entry is a directory.
    pub is_dir: bool,
    /// The content; `None` where it cannot be read.
    pub data: Option<Vec<u8>>,
}

impl View for ArchiveEntry {
    type V = EntryView;

    open spec fn view(&self) -> EntryView {
        EntryView {
            name: match self.name {
                Some(n) => Some(n@),
                None => None,
            },
            is_dir: self.is_dir,
            data: match self.data {
                Some(d) => Some(d@),
                None => None,
            },
        }
    }
}

/// A file as plain values: its path relative to the project root, and its
/// content.
#[derive(Debug, PartialEq, Eq)]
pub struct ProjectFile {
    /// The path relative to the project root.
    pub path: String,
    /// The content.
    pub bytes: Vec<u8>,
}

impl View for ProjectFile {
    type V = (Seq<char>, Seq<u8>);

    open spec fn view(&self) -> (Seq<char>, Seq<u8>) {
        (self.path@, self.bytes@)
    }
}

/// The entries of an archive as plain values.
pub open spec fn entry_views(entries: Seq<ArchiveEntry>) -> Seq<EntryView> {
    entries.map_values(|e: ArchiveEntry| e@)
}

/// The files as pairs of path and content.
pub open spec fn file_views(files: Seq<ProjectFile>) -> Seq<(Seq<char>, Seq<u8>)> {
    files.map_values(|f: ProjectFile| f@)
}

/// A copy of the bytes.
pub fn copy_bytes(bytes: &Vec<u8>) -> (r: Vec<u8>)
    ensures
        r@ == bytes@,
{
    let mut out: Vec<u8> = Vec::new();
    let mut i: usize = 0;
    while i < bytes.len()
        invariant
            i <= bytes.len(),
            out@ == bytes@.take(i as int),
        decreases bytes.len() - i,
    {
        out.push(bytes[i]);
        i += 1;
        assert(bytes@.take(i as int) == bytes@.take(i - 1).push(bytes@[i - 1]));
    }
    assert(bytes@.take(bytes.len() as int) == bytes@);
    out
}

/// The entries that an opened archive holds, in the order of its central
/// directory: for each the name that `ZipFileEntry::name` gives, whether
/// `ZipFileEntry::is_dir` holds of it, and the bytes that reading the file
/// of `ZipArchive::by_index` to its end gives.
pub uninterp spec fn archive_entries(archive: zip::ZipArchive<std::io::Cursor<Vec<u8>>>) -> Seq<
    EntryView,
>;

/// The entries of the archive that `ZipArchive::new` reads from `bytes`;
/// `None` where it reads none.
pub uninterp spec fn zip_contents(bytes: Seq<u8>) -> Option<Seq<EntryView>>;

/// `ZipArchive::new` on a cursor over a copy of `bytes`: it reads the central
/// directory, and fails where the bytes are no zip archive.
#[verifier::external_body]
fn archive_open(bytes: &Vec<u8>) -> (r: Result<
    zip::ZipArchive<std::io::Cursor<Vec<u8>>>,
    zip::result::ZipError,
>)
    ensures
        match r {
            Ok(a) => zip_contents(bytes@) == Some(archive_entries(a)),
            Err(_) => zip_contents(bytes@) is None,
        },
{
    zip::ZipArchive::new(std::io::Cursor::new(bytes.clone()))
}

/// `ZipArchive::len`: the number of entries.
#[verifier::external_body]
fn archive_len(archive: &zip::ZipArchive<std::io::Cursor<Vec<u8>>>) -> (n: usize)
    ensures
        n == archive_entries(*archive).len(),
{
    archive.len()
}

/// `ZipArchive::by_index_data` and `ZipFileEntry::name`: the stored name of
/// the entry at `index`, decoded.
#[verifier::external_body]
fn archive_entry_name(archive: &zip::ZipArchive<std::io::Cursor<Vec<u8>>>, index: usize) -> (r:
    Result<String, zip::result::ZipError>)
    requires
        index < archive_entries(*archive).len(),
    ensures
        match r {
            Ok(n) => archive_entries(*archive)[index as int].name == Some(n@),
            Err(_) => archive_entries(*archive)[index as int].name is None,
        },
{
    Ok(archive.by_index_data(index)?.name()?.into_owned())
}

/// `ZipArchive::by_index_data` and `ZipFileEntry::is_dir`: whether the entry
/// at `index` is a directory.
#[verifier::external_body]
fn archive_entry_is_dir(archive: &zip::ZipArchive<std::io::Cursor<Vec<u8>>>, index: usize) -> (r:
    bool)
    requires
        index < archive_entries(*archive).len(),
    ensures
        r == archive_entries(*archive)[index as int].is_dir,
{
    match archive.by_index_data(index) {
        Ok(entry) => entry.is_dir(),
        Err(_) => false,
    }
}

/// `ZipArchive::by_index` and `Read::read_to_end` on the file it gives: the
/// content of the entry at `index`. Reading moves the archive's cursor and
/// leaves its entries as they are.
#[verifier::external_body]
fn archive_entry_data(archive: &mut zip::ZipArchive<std::io::Cursor<Vec<u8>>>, index: usize) -> (r:
    Result<Vec<u8>, zip::result::ZipError>)
    requires
        index < archive_entries(*old(archive)).len(),
    ensures
        archive_entries(*final(archive)) == archive_entries(*old(archive)),
        match r {
            Ok(d) => archive_entries(*old(archive))[index as int].data == Some(d@),
            Err(_) => archive_entries(*old(archive))[index as int].data is None,
        },
{
    let mut data = Vec::new();
    std::io::Read::read_to_end(&mut archive.by_index(index)?, &mut data)?;
    Ok(data)
}

/// The entries of the zip archive `bytes`, each with its name, whether it is
/// a directory, and its content. Fails where `bytes` is no zip archive.
pub fn read_archive(bytes: &Vec<u8>) -> (r: Result<Vec<ArchiveEntry>, TextureError>)
    ensures
        match zip_contents(bytes@) {
            Some(es) => r matches Ok(v) && entry_views(v@) == es,
            None => r == Err::<Vec<ArchiveEntry>, TextureError>(TextureError::ArchiveError),
        },
{
    let mut archive = match archive_open(bytes) {
        Ok(a) => a,
        Err(_) => {
            return Err(TextureError::ArchiveError);
        },
    };
    let ghost contents = archive_entries(archive);
    let n = archive_len(&archive);
    let mut out: Vec<ArchiveEntry> = Vec::new();
    let mut i: usize = 0;
    while i < n
        invariant
            i <= n,
            n == contents.len(),
            archive_entries(archive) == contents,
            out.len() == i,
            forall|j: int| 0 <= j < i ==> (#[trigger] out@[j])@ == contents[j],
        decreases n - i,
    {
        let name = match archive_entry_name(&archive, i) {
            Ok(s) => Some(s),
            Err(_) => None,
        };
        let is_dir = archive_entry_is_dir(&archive, i);
        let data = match archive_entry_data(&mut archive, i) {
            Ok(d) => Some(d),
            Err(_) => None,
        };
        out.push(ArchiveEntry { name, is_dir, data });
        i += 1;
    }
    assert(entry_views(out@) =~= contents);
    Ok(out)
}

/// A `zip::ZipWriter` that writes into memory; what it holds is
/// `writer_files`.
#[verifier::external_body]
pub struct StoredWriter {
    inner: zip::ZipWriter<std::io::Cursor<Vec<u8>>>,
}

/// The files that a writer holds so far, each with its name and content, in
/// the order in which they were added.
pub uninterp spec fn writer_files(writer: StoredWriter) -> Seq<(Seq<char>, Seq<u8>)>;

/// Whether a writer that holds `files` takes one more file called `name`
/// with the content `data`: whether `ZipWriter::start_file` and
/// `Write::write_all` both succeed on it. The writer refuses, among others,
/// a name that it holds already.
pub uninterp spec fn writer_takes(
    files: Seq<(Seq<char>, Seq<u8>)>,
    name: Seq<char>,
    data: Seq<u8>,
) -> bool;

/// The bytes that `ZipWriter::finish` hands back for a writer that holds
/// `files`, each stored without compression, dated 1980-01-01 and marked as
/// written on Unix; `None` where it fails.
pub uninterp spec fn stored_archive(files: Seq<(Seq<char>, Seq<u8>)>) -> Option<Seq<u8>>;

/// `ZipWriter::new` on a cursor over an empty vector: a writer that holds no
/// file.
#[verifier::external_body]
fn writer_new() -> (w: StoredWriter)
    ensures
        writer_files(w) == Seq::<(Seq<char>, Seq<u8>)>::empty(),
{
    StoredWriter { inner: zip::ZipWriter::new(std::io::Cursor::new(Vec::new())) }
}

/// `ZipWriter::start_file`, with the options for a stored file dated
/// 1980-01-01 and marked as written on Unix, and `Write::write_all`. Whether
/// both succeed depends on what the writer holds, on the name and on the
/// content alone. Where they do, the writer holds one more file, called
/// `name`, with the content `data`.
#[verifier::external_body]
fn writer_add(writer: &mut StoredWriter, name: &str, data: &Vec<u8>) -> (r: Result<
    (),
    zip::result::ZipError,
>)
    ensures
        r is Ok <==> writer_takes(writer_files(*old(writer)), name@, data@),
        r is Ok ==> writer_files(*final(writer)) == writer_files(*old(writer)).push(
            (name@, data@),
        ),
{
    let options = zip::write::SimpleFileOptions::default()
        .compression_method(zip::CompressionMethod::Stored)
        .last_modified_time(zip::DateTime::default())
        .system(zip::System::Unix);
    writer.inner.start_file(name, options)?;
    std::io::Write::write_all(&mut writer.inner, data)?;
    Ok(())
}

/// `ZipWriter::finish`: writes the central directory and hands back the
/// bytes of the archive.
#[verifier::external_body]
fn writer_finish(writer: StoredWriter) -> (r: Result<Vec<u8>, zip::result::ZipError>)
    ensures
        match r {
            Ok(bytes) => stored_archive(writer_files(writer)) == Some(bytes@),
            Err(_) => stored_archive(writer_files(writer)) is None,
        },
{
    Ok(writer.inner.finish()?.into_inner())
}

/// Whether a writer takes the files one after the other.
pub open spec fn takes_all(files: Seq<(Seq<char>, Seq<u8>)>) -> bool {
    forall|i: int|
        0 <= i < files.len() ==> writer_takes(#[trigger] files.take(i), files[i].0, files[i].1)
}

/// The bytes of the zip archive that holds `files` in order, each under its
/// path and stored without compression; `None` where the writer refuses one
/// of the files or cannot finish the archive.
pub open spec fn packed(files: Seq<(Seq<char>, Seq<u8>)>) -> Option<Seq<u8>> {
    if takes_all(files) {
        stored_archive(files)
    } else {
        None
    }
}

/// The bytes of a zip archive that holds `files` in order, each under its
/// path and stored without compression. It fails where the zip writer
/// refuses one of the files, as it does with a path that occurs twice, or
/// cannot finish the archive.
pub fn pack_stored(files: &Vec<ProjectFile>) -> (r: Result<Vec<u8>, TextureError>)
    ensures
        match packed(file_views(files@)) {
            Some(b) => r matches Ok(v) && v@ == b,
            None => r == Err::<Vec<u8>, TextureError>(TextureError::ArchiveError),
        },
{
    let mut writer = writer_new();
    let ghost all = file_views(files@);
    let mut i: usize = 0;
    assert(all.take(0) =~= Seq::<(Seq<char>, Seq<u8>)>::empty());
    while i < files.len()
        invariant
            i <= files.len(),
            all == file_views(files@),
            writer_files(writer) == all.take(i as int),
            forall|j: int|
                0 <= j < i ==> writer_takes(#[trigger] all.take(j), all[j].0, all[j].1),
        decreases files.len() - i,
    {
        assert(all[i as int] == files@[i as int]@);
        match writer_add(&mut writer, files[i].path.as_str(), &files[i].bytes) {
            Ok(_) => {},
            Err(_) => {
                assert(!writer_takes(all.take(i as int), all[i as int].0, all[i as int].1));
                return Err(TextureError::ArchiveError);
            },
        }
        assert(all.take(i + 1) =~= all.take(i as int).push(files@[i as int]@));
        i += 1;
    }
    assert(all.take(files.len() as int) =~= all);
    match writer_finish(writer) {
        Ok(bytes) => Ok(bytes),
        Err(_) => Err(TextureError::ArchiveError),
    }
}

} // verus!
