//! Dropped files: telling images from archives, the place of a dropped
//! image in the texture directory, and the files to write for a dropped
//! archive.

use crate::archive::{
    copy_bytes, entry_views, file_views, read_archive, zip_contents, ArchiveEntry, EntryView,
    ProjectFile,
};
use crate::catalog::{file_names, texture_path, BonzomaticTextureManagerApp, TextureView};
use crate::error::TextureError;
use crate::name::{candidate, first_free, free_file_name, free_name, lemma_candidate_is_plain};
use crate::path::{
    base_name, base_name_chars, file_extension, file_extension_chars, is_contained, is_plain,
    lemma_base_name_is_free, lemma_descend_plain, lemma_separators, normal_form, normalize_chars,
    separators,
};
use crate::text::{
    append_chars, ascii_lowercase, chars_eq, from_chars, holds, joined, lemma_pieces_joined,
    starts_with, to_ascii_lowercase, to_chars, views,
};
use vstd::prelude::*;

verus! {

/// What a dropped file is taken for.
#[derive(Clone, Copy, Debug, PartialEq, Eq, Structural)]
pub enum DropKind {
    /// An image, to be copied into the texture directory.
    Image,
    /// A zip archive, whose textures are to be extracted.
    Archive,
}

/// What the file at `path` is taken for, by the extension of its name,
/// letter case apart: `png`, `jpg` and `jpeg` are images, `zip` is an
/// archive, anything else is not supported.
pub open spec fn drop_kind(path: Seq<char>) -> Option<DropKind> {
    match file_extension(base_name(path)) {
        Some(e) => {
            let low = ascii_lowercase(e);
            if low == "png"@ || low == "jpg"@ || low == "jpeg"@ {
                Some(DropKind::Image)
            } else if low == "zip"@ {
                Some(DropKind::Archive)
            } else {
                None
            }
        },
        None => None,
    }
}

/// Where the image dropped from `source` goes, the files `existing` being
/// on disk: into the texture directory, under the first name that collides
/// with nothing in the catalog and at which no file is on disk.
pub open spec fn image_target(
    catalog: Seq<TextureView>,
    source: Seq<char>,
    existing: Seq<Seq<char>>,
) -> Result<Seq<char>, TextureError> {
    if drop_kind(source) != Some(DropKind::Image) {
        Err(TextureError::UnsupportedFile)
    } else {
        match free_name(catalog, normal_forms(existing), base_name(source)) {
            None => Err(TextureError::IoError),
            Some(n) => Ok(texture_path(n)),
        }
    }
}

/// What becomes of an entry of an archive, by its name alone.
pub enum Target {
    /// It is passed over: its name cannot be decoded, it is a directory, or
    /// it does not lie under `textures/`, as it is written or once its
    /// detours are taken out.
    Skipped,
    /// It lies under `textures/` by its name but leads out of the project
    /// root.
    Escaping,
    /// It goes to this path, in normal form.
    Inside(Seq<char>),
}

/// Whether the stored name lies under the texture directory.
pub open spec fn under_textures(name: Seq<char>) -> bool {
    "textures/"@.is_prefix_of(name)
}

/// What becomes of the entry `e`, by its name alone.
pub open spec fn target_of(e: EntryView) -> Target {
    match e.name {
        None => Target::Skipped,
        Some(n) => if e.is_dir || !under_textures(n) {
            Target::Skipped
        } else {
            match normal_form(n) {
                Some(d) => if under_textures(d) {
                    Target::Inside(d)
                } else {
                    Target::Skipped
                },
                None => Target::Escaping,
            }
        },
    }
}

/// Whether one of the entries leads out of the project root.
pub open spec fn any_escapes(entries: Seq<EntryView>) -> bool {
    exists|i: int| 0 <= i < entries.len() && target_of(#[trigger] entries[i]) is Escaping
}

/// The normal forms of the paths that have one, in order.
pub open spec fn normal_forms(paths: Seq<Seq<char>>) -> Seq<Seq<char>>
    decreases paths.len(),
{
    if paths.len() == 0 {
        Seq::empty()
    } else {
        let before = normal_forms(paths.drop_last());
        match normal_form(paths.last()) {
            Some(n) => before.push(n),
            None => before,
        }
    }
}

/// The files to write for `entries`, where the paths `taken` are occupied:
/// each entry that goes to a path that is not occupied, and whose content
/// can be read, is written there and occupies the path for those behind it.
pub open spec fn planned(entries: Seq<EntryView>, taken: Seq<Seq<char>>) -> Seq<
    (Seq<char>, Seq<u8>),
>
    decreases entries.len(),
{
    if entries.len() == 0 {
        Seq::empty()
    } else {
        let e = entries[0];
        let rest = entries.drop_first();
        match target_of(e) {
            Target::Inside(d) => if e.data is Some && !taken.contains(d) {
                seq![(d, e.data.unwrap())] + planned(rest, taken.push(d))
            } else {
                planned(rest, taken)
            },
            _ => planned(rest, taken),
        }
    }
}

/// The files to write for the entries of an archive, where the files
/// `existing` are on disk: nothing at all where one entry leads out of the
/// project root; otherwise each texture of the archive that is not on disk
/// yet, the first of each path.
pub open spec fn import_plan(entries: Seq<EntryView>, existing: Seq<Seq<char>>) -> Result<
    Seq<(Seq<char>, Seq<u8>)>,
    TextureError,
> {
    if any_escapes(entries) {
        Err(TextureError::PathEscape)
    } else {
        Ok(planned(entries, normal_forms(existing)))
    }
}

/// The files to write for a drop, as `import` plans them.
pub open spec fn drop_plan(
    catalog: Seq<TextureView>,
    source: Seq<char>,
    content: Seq<u8>,
    existing: Seq<Seq<char>>,
) -> Result<Seq<(Seq<char>, Seq<u8>)>, TextureError> {
    match drop_kind(source) {
        None => Err(TextureError::UnsupportedFile),
        Some(DropKind::Image) => match image_target(catalog, source, existing) {
            Ok(p) => Ok(seq![(p, content)]),
            Err(e) => Err(e),
        },
        Some(DropKind::Archive) => match zip_contents(content) {
            None => Err(TextureError::ArchiveError),
            Some(es) => import_plan(es, existing),
        },
    }
}

/// The path of a plain file name in the texture directory is in normal
/// form, and so lies inside the project root.
pub proof fn lemma_texture_path_is_normal(file_name: Seq<char>)
    requires
        is_plain(file_name),
    ensures
        normal_form(texture_path(file_name)) == Some(texture_path(file_name)),
        is_contained(texture_path(file_name)),
{
    reveal_strlit("textures/");
    let path = texture_path(file_name);
    let dir = "textures/"@.take(8);
    let parts = seq![dir, file_name];
    assert(parts.drop_first() =~= seq![file_name]);
    assert(joined(parts.drop_first(), '/') == file_name);
    assert(joined(parts, '/') =~= path);
    assert(seq!['.'].len() == 1 && seq!['.', '.'].len() == 2);
    assert forall|j: int| 0 <= j < dir.len() implies !separators().contains(#[trigger] dir[j]) by {
        lemma_separators(dir[j]);
    }
    assert(is_plain(dir));
    assert forall|i: int| 0 <= i < parts.len() implies is_plain(#[trigger] parts[i]) by {
        if i == 0 {
            assert(parts[0] == dir);
        } else {
            assert(parts[1] == file_name);
        }
    }
    assert(separators()[0] == '/');
    lemma_pieces_joined(parts, '/', separators());
    lemma_descend_plain(Seq::empty(), parts);
    assert(Seq::<Seq<char>>::empty() + parts =~= parts);
    assert(path[0] == 't' && path[1] == 'e');
}

/// Every name tried for a dropped image is a plain file name.
pub proof fn lemma_image_name_is_plain(source: Seq<char>, k: nat)
    requires
        drop_kind(source) == Some(DropKind::Image),
    ensures
        is_plain(candidate(base_name(source), k)),
{
    reveal_strlit("png");
    reveal_strlit("jpg");
    reveal_strlit("jpeg");
    let e = file_extension(base_name(source)).unwrap();
    assert(ascii_lowercase(e).len() == e.len());
    assert("png"@.len() == 3 && "jpg"@.len() == 3 && "jpeg"@.len() == 4);
    assert(e.len() >= 3);
    lemma_base_name_is_free(source);
    lemma_candidate_is_plain(base_name(source), k);
}

/// A dropped image goes to a path in normal form inside the texture
/// directory.
pub proof fn lemma_image_target_is_inside(
    catalog: Seq<TextureView>,
    source: Seq<char>,
    existing: Seq<Seq<char>>,
)
    ensures
        image_target(catalog, source, existing) matches Ok(p) ==> normal_form(p) == Some(p)
            && is_contained(p) && under_textures(p),
{
    if let Ok(p) = image_target(catalog, source, existing) {
        let name = base_name(source);
        let k = first_free(catalog, normal_forms(existing), name, 1, u64::MAX as nat).unwrap();
        lemma_image_name_is_plain(source, k);
        lemma_texture_path_is_normal(candidate(name, k));
        assert(p.subrange(0, "textures/"@.len() as int) =~= "textures/"@);
    }
}

/// What the file at `path` is taken for, by the extension of its name.
pub fn classify_drop(path: &str) -> (r: Result<DropKind, TextureError>)
    ensures
        match drop_kind(path@) {
            Some(k) => r == Ok::<DropKind, TextureError>(k),
            None => r == Err::<DropKind, TextureError>(TextureError::UnsupportedFile),
        },
{
    let chars = to_chars(path);
    let name = base_name_chars(&chars);
    match file_extension_chars(&name) {
        Some(e) => {
            let low = to_ascii_lowercase(&e);
            if chars_eq(&low, &to_chars("png")) || chars_eq(&low, &to_chars("jpg")) || chars_eq(
                &low,
                &to_chars("jpeg"),
            ) {
                Ok(DropKind::Image)
            } else if chars_eq(&low, &to_chars("zip")) {
                Ok(DropKind::Archive)
            } else {
                Err(TextureError::UnsupportedFile)
            }
        },
        None => Err(TextureError::UnsupportedFile),
    }
}

impl BonzomaticTextureManagerApp {
    /// The files to write for the file dropped from `source`, `content`
    /// being its bytes and `existing` the paths of the files that are on
    /// disk. An image is written once, to its place in the texture
    /// directory; an archive gives the textures that are not on disk yet;
    /// any other file is refused.
    pub fn import(&self, source: &str, content: &Vec<u8>, existing: &Vec<String>) -> (r: Result<
        Vec<ProjectFile>,
        TextureError,
    >)
        ensures
            match drop_plan(self.catalog(), source@, content@, file_names(existing@)) {
                Ok(ws) => r matches Ok(v) && file_views(v@) == ws,
                Err(e) => r == Err::<Vec<ProjectFile>, TextureError>(e),
            },
    {
        match classify_drop(source) {
            Ok(DropKind::Image) => match self.image_destination(source, existing) {
                Ok(path) => {
                    let mut out: Vec<ProjectFile> = Vec::new();
                    out.push(ProjectFile { path, bytes: copy_bytes(content) });
                    assert(file_views(out@) =~= seq![(path@, content@)]);
                    Ok(out)
                },
                Err(e) => Err(e),
            },
            Ok(DropKind::Archive) => import_archive(content, existing),
            Err(e) => Err(e),
        }
    }

    /// The path, relative to the project root, to which the image dropped
    /// from `source` is to be copied, `existing` being the paths of the
    /// files that are on disk: in the texture directory, under its own name
    /// where that is not in the way, and else under the first name with
    /// `_2`, `_3`, ... before the extension that is not. A name is in the
    /// way where a texture of the catalog has a path that ends with it,
    /// letter case apart, or where a file is on disk at its place. A file
    /// that is no image is refused.
    pub fn image_destination(&self, source: &str, existing: &Vec<String>) -> (r: Result<
        String,
        TextureError,
    >)
        ensures
            match image_target(self.catalog(), source@, file_names(existing@)) {
                Ok(p) => r matches Ok(s) && s@ == p,
                Err(e) => r == Err::<String, TextureError>(e),
            },
    {
        match classify_drop(source) {
            Ok(DropKind::Image) => {},
            _ => {
                return Err(TextureError::UnsupportedFile);
            },
        }
        let chars = to_chars(source);
        let name = from_chars(&base_name_chars(&chars));
        let taken = normalize_all(existing);
        match free_file_name(name.as_str(), &self.local_textures, &taken) {
            None => Err(TextureError::IoError),
            Some(n) => {
                let mut dest = to_chars("textures/");
                append_chars(&mut dest, &to_chars(n.as_str()));
                Ok(from_chars(&dest))
            },
        }
    }
}

/// What becomes of an entry of an archive, by its name alone.
pub enum EntryTarget {
    /// It is passed over.
    Skipped,
    /// It leads out of the project root.
    Escaping,
    /// It goes to this path, in normal form.
    Inside(Vec<char>),
}

impl View for EntryTarget {
    type V = Target;

    open spec fn view(&self) -> Target {
        match self {
            EntryTarget::Skipped => Target::Skipped,
            EntryTarget::Escaping => Target::Escaping,
            EntryTarget::Inside(d) => Target::Inside(d@),
        }
    }
}

/// What becomes of the entry `entry`, by its name alone.
pub fn entry_target(entry: &ArchiveEntry) -> (r: EntryTarget)
    ensures
        r@ == target_of(entry@),
{
    match &entry.name {
        None => EntryTarget::Skipped,
        Some(n) => {
            let name = to_chars(n.as_str());
            let prefix = to_chars("textures/");
            if entry.is_dir || !starts_with(&name, &prefix) {
                EntryTarget::Skipped
            } else {
                match normalize_chars(&name) {
                    Some(d) => if starts_with(&d, &prefix) {
                        EntryTarget::Inside(d)
                    } else {
                        EntryTarget::Skipped
                    },
                    None => EntryTarget::Escaping,
                }
            }
        },
    }
}

/// The normal forms of the paths that have one, in order.
fn normalize_all(paths: &Vec<String>) -> (r: Vec<Vec<char>>)
    ensures
        views(r@) == normal_forms(file_names(paths@)),
{
    let mut out: Vec<Vec<char>> = Vec::new();
    let mut i: usize = 0;
    assert(file_names(paths@).take(0) =~= Seq::<Seq<char>>::empty());
    assert(views(out@) =~= Seq::<Seq<char>>::empty());
    while i < paths.len()
        invariant
            i <= paths.len(),
            views(out@) == normal_forms(file_names(paths@).take(i as int)),
        decreases paths.len() - i,
    {
        let ghost before = views(out@);
        let ghost next = file_names(paths@).take(i + 1);
        assert(next.drop_last() =~= file_names(paths@).take(i as int));
        assert(next.last() == paths@[i as int]@);
        let chars = to_chars(paths[i].as_str());
        match normalize_chars(&chars) {
            Some(n) => {
                out.push(n);
                assert(views(out@) =~= before.push(n@));
            },
            None => {},
        }
        i += 1;
    }
    assert(file_names(paths@).take(paths.len() as int) =~= file_names(paths@));
    out
}

/// The files to write for the entries of an archive, `existing` being the
/// paths, relative to the project root, of the files that are on disk.
/// Directories and entries outside `textures/` are passed over, and so are
/// entries whose name or content cannot be read. One entry under
/// `textures/` that leads out of the project root makes the whole import
/// fail, and nothing is written. No file that is on disk is written, and no
/// path is written twice: the first entry of a path wins. The paths to
/// write are in normal form.
pub fn plan_archive_import(entries: &Vec<ArchiveEntry>, existing: &Vec<String>) -> (r: Result<
    Vec<ProjectFile>,
    TextureError,
>)
    ensures
        match import_plan(entry_views(entries@), file_names(existing@)) {
            Ok(ws) => r matches Ok(v) && file_views(v@) == ws,
            Err(e) => r == Err::<Vec<ProjectFile>, TextureError>(e),
        },
{
    let mut k: usize = 0;
    while k < entries.len()
        invariant
            k <= entries.len(),
            forall|j: int| 0 <= j < k ==> !(target_of(#[trigger] entry_views(entries@)[j]) is Escaping),
        decreases entries.len() - k,
    {
        assert(entry_views(entries@)[k as int] == entries@[k as int]@);
        match entry_target(&entries[k]) {
            EntryTarget::Escaping => {
                return Err(TextureError::PathEscape);
            },
            _ => {},
        }
        k += 1;
    }
    let mut taken = normalize_all(existing);
    let mut out: Vec<ProjectFile> = Vec::new();
    let mut i: usize = 0;
    let ghost all = entry_views(entries@);
    let ghost start = normal_forms(file_names(existing@));
    assert(all.skip(0) =~= all);
    assert(file_views(out@) + planned(all, start) =~= planned(all, start));
    while i < entries.len()
        invariant
            i <= entries.len(),
            all == entry_views(entries@),
            planned(all, start) == file_views(out@) + planned(all.skip(i as int), views(taken@)),
        decreases entries.len() - i,
    {
        let ghost rest = all.skip(i as int);
        let ghost before = file_views(out@);
        let ghost occupied = views(taken@);
        assert(rest[0] == entries@[i as int]@);
        assert(rest.drop_first() =~= all.skip(i + 1));
        match entry_target(&entries[i]) {
            EntryTarget::Inside(d) => {
                match &entries[i].data {
                    Some(data) => {
                        if !holds(&taken, &d) {
                            let file = ProjectFile {
                                path: from_chars(&d),
                                bytes: copy_bytes(data),
                            };
                            out.push(file);
                            taken.push(d);
                            assert(views(taken@) =~= occupied.push(d@));
                            assert(file_views(out@) =~= before.push((d@, data@)));
                            assert(before + (seq![(d@, data@)] + planned(
                                rest.drop_first(),
                                occupied.push(d@),
                            )) =~= before.push((d@, data@)) + planned(
                                rest.drop_first(),
                                occupied.push(d@),
                            ));
                        }
                    },
                    None => {},
                }
            },
            _ => {},
        }
        i += 1;
    }
    assert(file_views(out@) + Seq::<(Seq<char>, Seq<u8>)>::empty() =~= file_views(out@));
    Ok(out)
}

/// The files to write for the zip archive `bytes`, `existing` being the
/// paths of the files that are on disk. Fails where `bytes` is no zip
/// archive, or where one of its textures leads out of the project root.
pub fn import_archive(bytes: &Vec<u8>, existing: &Vec<String>) -> (r: Result<
    Vec<ProjectFile>,
    TextureError,
>)
    ensures
        match zip_contents(bytes@) {
            None => r == Err::<Vec<ProjectFile>, TextureError>(TextureError::ArchiveError),
            Some(es) => match import_plan(es, file_names(existing@)) {
                Ok(ws) => r matches Ok(v) && file_views(v@) == ws,
                Err(e) => r == Err::<Vec<ProjectFile>, TextureError>(e),
            },
        },
{
    match read_archive(bytes) {
        Ok(entries) => plan_archive_import(&entries, existing),
        Err(e) => Err(e),
    }
}

} // verus!
