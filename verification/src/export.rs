//! The texture pack: the files of the active entries in one zip archive.

use crate::archive::{copy_bytes, file_views, pack_stored, packed, ProjectFile};
use crate::catalog::{
    entries, file_names, BonzomaticTexture, BonzomaticTextureManagerApp, TextureView,
};
use crate::error::TextureError;
use crate::path::{is_contained, normalize_chars};
use crate::text::{chars_eq, to_chars};
use vstd::prelude::*;

verus! {

/// Whether an active entry before `i` has the path of the entry at `i`.
pub open spec fn is_repeated(catalog: Seq<TextureView>, i: int) -> bool {
    exists|j: int| 0 <= j < i && (#[trigger] catalog[j]).active && catalog[j].path == catalog[i].path
}

/// Whether the file of the entry at `i` goes into the pack: the entry is
/// active, and no active entry before it has its path.
pub open spec fn is_packed(catalog: Seq<TextureView>, i: int) -> bool {
    catalog[i].active && !is_repeated(catalog, i)
}

/// The paths that the first `n` entries of the catalog give the pack.
pub open spec fn paths_upto(catalog: Seq<TextureView>, n: int) -> Seq<Seq<char>>
    decreases n,
{
    if n <= 0 {
        Seq::empty()
    } else {
        let before = paths_upto(catalog, n - 1);
        if is_packed(catalog, n - 1) {
            before.push(catalog[n - 1].path)
        } else {
            before
        }
    }
}

/// The paths of the files that go into the pack: those of the active
/// entries, in order, each once.
pub open spec fn export_paths(catalog: Seq<TextureView>) -> Seq<Seq<char>> {
    paths_upto(catalog, catalog.len() as int)
}

/// The content of the first of `files` that has the path `path`.
pub open spec fn file_content(files: Seq<(Seq<char>, Seq<u8>)>, path: Seq<char>) -> Option<
    Seq<u8>,
>
    decreases files.len(),
{
    if files.len() == 0 {
        None
    } else if files[0].0 == path {
        Some(files[0].1)
    } else {
        file_content(files.drop_first(), path)
    }
}

/// The files at `paths`, each with its content from `files`. The first path
/// that leads out of the project root, or that none of `files` has, makes
/// the whole fail.
pub open spec fn gathered(paths: Seq<Seq<char>>, files: Seq<(Seq<char>, Seq<u8>)>) -> Result<
    Seq<(Seq<char>, Seq<u8>)>,
    TextureError,
>
    decreases paths.len(),
{
    if paths.len() == 0 {
        Ok(Seq::empty())
    } else {
        match gathered(paths.drop_last(), files) {
            Err(e) => Err(e),
            Ok(before) => if !is_contained(paths.last()) {
                Err(TextureError::PathEscape)
            } else {
                match file_content(files, paths.last()) {
                    Some(bytes) => Ok(before.push((paths.last(), bytes))),
                    None => Err(TextureError::ArchiveError),
                }
            },
        }
    }
}

/// Whether an active entry before `i` has the path `path`.
fn repeated(catalog: &Vec<BonzomaticTexture>, i: usize, path: &Vec<char>) -> (r: bool)
    requires
        i < catalog.len(),
        path@ == catalog@[i as int]@.path,
    ensures
        r == is_repeated(entries(catalog@), i as int),
{
    let mut j: usize = 0;
    while j < i
        invariant
            j <= i < catalog.len(),
            path@ == catalog@[i as int]@.path,
            forall|k: int|
                0 <= k < j ==> !((#[trigger] entries(catalog@)[k]).active && entries(catalog@)[k].path
                    == entries(catalog@)[i as int].path),
        decreases i - j,
    {
        assert(entries(catalog@)[j as int] == catalog@[j as int]@);
        assert(entries(catalog@)[i as int] == catalog@[i as int]@);
        if catalog[j].activated {
            let other = to_chars(catalog[j].local_file.as_str());
            if chars_eq(&other, path) {
                return true;
            }
        }
        j += 1;
    }
    false
}

/// The paths of the files that go into the pack of a catalog.
pub fn active_paths(catalog: &Vec<BonzomaticTexture>) -> (r: Vec<String>)
    ensures
        file_names(r@) == export_paths(entries(catalog@)),
{
    let mut out: Vec<String> = Vec::new();
    let mut i: usize = 0;
    assert(file_names(out@) =~= paths_upto(entries(catalog@), 0));
    while i < catalog.len()
        invariant
            i <= catalog.len(),
            file_names(out@) == paths_upto(entries(catalog@), i as int),
        decreases catalog.len() - i,
    {
        let ghost before = file_names(out@);
        assert(entries(catalog@)[i as int] == catalog@[i as int]@);
        if catalog[i].activated {
            let path = to_chars(catalog[i].local_file.as_str());
            if !repeated(catalog, i, &path) {
                out.push(catalog[i].local_file.clone());
                assert(file_names(out@) =~= before.push(catalog@[i as int]@.path));
            }
        }
        i += 1;
    }
    out
}

/// The content of the first of `files` that has the path `path`.
pub fn find_file<'a>(files: &'a Vec<ProjectFile>, path: &Vec<char>) -> (r: Option<&'a Vec<u8>>)
    ensures
        match r {
            Some(b) => file_content(file_views(files@), path@) == Some(b@),
            None => file_content(file_views(files@), path@) is None,
        },
{
    let mut i: usize = 0;
    assert(file_views(files@).skip(0) =~= file_views(files@));
    while i < files.len()
        invariant
            i <= files.len(),
            file_content(file_views(files@), path@) == file_content(
                file_views(files@).skip(i as int),
                path@,
            ),
        decreases files.len() - i,
    {
        let ghost rest = file_views(files@).skip(i as int);
        assert(rest[0] == files@[i as int]@);
        assert(rest.drop_first() =~= file_views(files@).skip(i + 1));
        let other = to_chars(files[i].path.as_str());
        if chars_eq(&other, path) {
            return Some(&files[i].bytes);
        }
        i += 1;
    }
    None
}

/// The files that go into the pack of `catalog`, each with its content from
/// `files`: those of the active entries, in order, each path once. Fails
/// with `PathEscape` at the first path that leads out of the project root,
/// and with `ArchiveError` at the first that none of `files` has.
pub fn export_sources(catalog: &Vec<BonzomaticTexture>, files: &Vec<ProjectFile>) -> (r: Result<
    Vec<ProjectFile>,
    TextureError,
>)
    ensures
        match gathered(export_paths(entries(catalog@)), file_views(files@)) {
            Ok(fs) => r matches Ok(v) && file_views(v@) == fs,
            Err(e) => r == Err::<Vec<ProjectFile>, TextureError>(e),
        },
{
    let paths = active_paths(catalog);
    let ghost all = export_paths(entries(catalog@));
    let mut out: Vec<ProjectFile> = Vec::new();
    let mut i: usize = 0;
    assert(all.take(0) =~= Seq::<Seq<char>>::empty());
    assert(file_views(out@) =~= Seq::<(Seq<char>, Seq<u8>)>::empty());
    while i < paths.len()
        invariant
            i <= paths.len(),
            all == file_names(paths@),
            all == export_paths(entries(catalog@)),
            gathered(all.take(i as int), file_views(files@)) == Ok::<
                Seq<(Seq<char>, Seq<u8>)>,
                TextureError,
            >(file_views(out@)),
        decreases paths.len() - i,
    {
        let ghost before = file_views(out@);
        let ghost next = all.take(i + 1);
        assert(next.drop_last() =~= all.take(i as int));
        assert(next.last() == paths@[i as int]@);
        let path = to_chars(paths[i].as_str());
        if normalize_chars(&path).is_none() {
            proof {
                lemma_gathered_fails(all, file_views(files@), i + 1, all.len() as int);
                assert(all.take(all.len() as int) =~= all);
            }
            return Err(TextureError::PathEscape);
        }
        match find_file(files, &path) {
            Some(bytes) => {
                out.push(ProjectFile { path: paths[i].clone(), bytes: copy_bytes(bytes) });
                assert(file_views(out@) =~= before.push((paths@[i as int]@, bytes@)));
            },
            None => {
                proof {
                    lemma_gathered_fails(all, file_views(files@), i + 1, all.len() as int);
                    assert(all.take(all.len() as int) =~= all);
                }
                return Err(TextureError::ArchiveError);
            },
        }
        i += 1;
    }
    assert(all.take(paths.len() as int) =~= all);
    Ok(out)
}

/// Once gathering has failed at a path, it fails the same way however many
/// paths follow.
pub proof fn lemma_gathered_fails(
    paths: Seq<Seq<char>>,
    files: Seq<(Seq<char>, Seq<u8>)>,
    m: int,
    n: int,
)
    requires
        0 <= m <= n <= paths.len(),
        gathered(paths.take(m), files) is Err,
    ensures
        gathered(paths.take(n), files) == gathered(paths.take(m), files),
    decreases n - m,
{
    if m < n {
        lemma_gathered_fails(paths, files, m, n - 1);
        assert(paths.take(n).drop_last() =~= paths.take(n - 1));
    }
}

/// The texture pack of `catalog`: a zip archive that holds the files of the
/// active entries, each once, under its path and stored without
/// compression. The content of each file comes from `files`. A path that
/// leads out of the project root, or a file that is missing, makes the
/// export fail as a whole; so does a file that the zip writer refuses.
pub fn export_zip(catalog: &Vec<BonzomaticTexture>, files: &Vec<ProjectFile>) -> (r: Result<
    Vec<u8>,
    TextureError,
>)
    ensures
        match gathered(export_paths(entries(catalog@)), file_views(files@)) {
            Ok(fs) => match packed(fs) {
                Some(b) => r matches Ok(v) && v@ == b,
                None => r == Err::<Vec<u8>, TextureError>(TextureError::ArchiveError),
            },
            Err(e) => r == Err::<Vec<u8>, TextureError>(e),
        },
{
    match export_sources(catalog, files) {
        Ok(sources) => pack_stored(&sources),
        Err(e) => Err(e),
    }
}

impl BonzomaticTextureManagerApp {
    /// The paths of the files that the texture pack needs: those of the
    /// active entries, in order, each once.
    pub fn pack_paths(&self) -> (r: Vec<String>)
        ensures
            file_names(r@) == export_paths(self.catalog()),
    {
        active_paths(&self.local_textures)
    }

    /// The texture pack of the catalog, the content of each file taken from
    /// `files`.
    pub fn write_zip_pack(&self, files: &Vec<ProjectFile>) -> (r: Result<Vec<u8>, TextureError>)
        ensures
            match gathered(export_paths(self.catalog()), file_views(files@)) {
                Ok(fs) => match packed(fs) {
                    Some(b) => r matches Ok(v) && v@ == b,
                    None => r == Err::<Vec<u8>, TextureError>(TextureError::ArchiveError),
                },
                Err(e) => r == Err::<Vec<u8>, TextureError>(e),
            },
    {
        export_zip(&self.local_textures, files)
    }
}

} // verus!
