//! The catalog: the textures that the manifest declares, followed by the
//! files of the texture directory that it does not declare yet.

use crate::error::TextureError;
use crate::name::{derive_name_chars, derived_name};
use crate::path::{normal_form, normalize_chars, place_under, under_root};
use crate::text::{append_chars, chars_eq, ends_with, from_chars, to_chars};
use vstd::prelude::*;

verus! {

/// One texture as the presentation layer shows and edits it.
#[derive(Debug, PartialEq, Eq)]
pub struct BonzomaticTexture {
    /// The uniform name that the shader binds the texture to.
    pub glsl_name: String,
    /// The path of the image file, relative to the project root.
    pub local_file: String,
    /// Whether the manifest declares the texture.
    pub activated: bool,
}

/// What a texture of the catalog is, as plain values.
pub struct TextureView {
    /// The uniform name.
    pub name: Seq<char>,
    /// The path relative to the project root.
    pub path: Seq<char>,
    /// Whether the manifest declares the texture.
    pub active: bool,
}

impl View for BonzomaticTexture {
    type V = TextureView;

    open spec fn view(&self) -> TextureView {
        TextureView { name: self.glsl_name@, path: self.local_file@, active: self.activated }
    }
}

impl BonzomaticTexture {
    /// A texture with the given uniform name, path and state.
    pub fn new(glsl_name: String, local_file: String, activated: bool) -> (t: Self)
        ensures
            t.glsl_name == glsl_name,
            t.local_file == local_file,
            t.activated == activated,
    {
        BonzomaticTexture { glsl_name, local_file, activated }
    }

    /// A copy of the texture.
    pub fn duplicate(&self) -> (t: Self)
        ensures
            t@ == self@,
    {
        BonzomaticTexture {
            glsl_name: self.glsl_name.clone(),
            local_file: self.local_file.clone(),
            activated: self.activated,
        }
    }
}

/// One binding of the manifest: a uniform name and the path of its image.
#[derive(Debug, PartialEq, Eq)]
pub struct ManifestEntry {
    /// The uniform name.
    pub uniform_name: String,
    /// The path of the image file, relative to the project root.
    pub relative_path: String,
}

impl View for ManifestEntry {
    type V = (Seq<char>, Seq<char>);

    open spec fn view(&self) -> (Seq<char>, Seq<char>) {
        (self.uniform_name@, self.relative_path@)
    }
}

/// The textures of a catalog as plain values.
pub open spec fn entries(catalog: Seq<BonzomaticTexture>) -> Seq<TextureView> {
    catalog.map_values(|t: BonzomaticTexture| t@)
}

/// The bindings of a manifest as pairs of name and path.
pub open spec fn bindings(manifest: Seq<ManifestEntry>) -> Seq<(Seq<char>, Seq<char>)> {
    manifest.map_values(|e: ManifestEntry| e@)
}

/// The file names of a directory listing as character sequences.
pub open spec fn file_names(listing: Seq<String>) -> Seq<Seq<char>> {
    listing.map_values(|s: String| s@)
}

/// The path of the file called `file_name` in the texture directory,
/// relative to the project root.
pub open spec fn texture_path(file_name: Seq<char>) -> Seq<char> {
    "textures/"@ + file_name
}

/// Whether the manifest already stands for the file called `file_name`: one
/// of its bindings has the uniform name derived from the file name, or a path
/// that ends with the file name.
pub open spec fn is_represented(manifest: Seq<(Seq<char>, Seq<char>)>, file_name: Seq<char>) -> bool {
    exists|i: int|
        0 <= i < manifest.len() && ((#[trigger] manifest[i]).0 == derived_name(file_name)
            || file_name.is_suffix_of(manifest[i].1))
}

/// The catalog entry of the manifest binding `binding`.
pub open spec fn declared_entry(binding: (Seq<char>, Seq<char>)) -> TextureView {
    TextureView { name: binding.0, path: binding.1, active: true }
}

/// The catalog entry of a file of the texture directory that the manifest
/// does not declare.
pub open spec fn discovered_entry(file_name: Seq<char>) -> TextureView {
    TextureView { name: derived_name(file_name), path: texture_path(file_name), active: false }
}

/// The entries of the manifest's bindings, in the manifest's order.
pub open spec fn declared(manifest: Seq<(Seq<char>, Seq<char>)>) -> Seq<TextureView> {
    manifest.map_values(|b: (Seq<char>, Seq<char>)| declared_entry(b))
}

/// The entries of the listed files that the manifest does not stand for, in
/// the listing's order.
pub open spec fn discovered(manifest: Seq<(Seq<char>, Seq<char>)>, listing: Seq<Seq<char>>) -> Seq<
    TextureView,
>
    decreases listing.len(),
{
    if listing.len() == 0 {
        Seq::empty()
    } else {
        let before = discovered(manifest, listing.drop_last());
        if is_represented(manifest, listing.last()) {
            before
        } else {
            before.push(discovered_entry(listing.last()))
        }
    }
}

/// The catalog of a manifest and a directory listing: the declared entries
/// first, then the discovered ones.
pub open spec fn reconciled(manifest: Seq<(Seq<char>, Seq<char>)>, listing: Seq<Seq<char>>) -> Seq<
    TextureView,
> {
    declared(manifest) + discovered(manifest, listing)
}

/// Whether a later active entry of the catalog has the uniform name of the
/// entry at `i`.
pub open spec fn is_shadowed(catalog: Seq<TextureView>, i: int) -> bool {
    exists|j: int| i < j < catalog.len() && (#[trigger] catalog[j]).active && catalog[j].name == catalog[i].name
}

/// Whether the entry at `i` goes into the manifest: it is active, and no
/// later active entry has its uniform name.
pub open spec fn is_written(catalog: Seq<TextureView>, i: int) -> bool {
    catalog[i].active && !is_shadowed(catalog, i)
}

/// The bindings that the first `n` entries of the catalog give the manifest.
pub open spec fn table_upto(catalog: Seq<TextureView>, n: int) -> Seq<(Seq<char>, Seq<char>)>
    decreases n,
{
    if n <= 0 {
        Seq::empty()
    } else {
        let before = table_upto(catalog, n - 1);
        if is_written(catalog, n - 1) {
            before.push((catalog[n - 1].name, catalog[n - 1].path))
        } else {
            before
        }
    }
}

/// The bindings that the catalog gives the manifest: those of its active
/// entries, in order, each uniform name once, with the path of the last
/// active entry that has it.
pub open spec fn active_table(catalog: Seq<TextureView>) -> Seq<(Seq<char>, Seq<char>)> {
    table_upto(catalog, catalog.len() as int)
}

/// Whether the manifest stands for the file called `file_name`, whose
/// derived uniform name is `derived`.
fn represented(manifest: &Vec<ManifestEntry>, file_name: &Vec<char>, derived: &Vec<char>) -> (r:
    bool)
    requires
        derived@ == derived_name(file_name@),
    ensures
        r == is_represented(bindings(manifest@), file_name@),
{
    let mut i: usize = 0;
    while i < manifest.len()
        invariant
            i <= manifest.len(),
            derived@ == derived_name(file_name@),
            forall|j: int|
                0 <= j < i ==> !((#[trigger] bindings(manifest@)[j]).0 == derived_name(file_name@)
                    || file_name@.is_suffix_of(bindings(manifest@)[j].1)),
        decreases manifest.len() - i,
    {
        let name = to_chars(manifest[i].uniform_name.as_str());
        let path = to_chars(manifest[i].relative_path.as_str());
        assert(bindings(manifest@)[i as int] == manifest@[i as int]@);
        if chars_eq(&name, derived) || ends_with(&path, file_name) {
            return true;
        }
        i += 1;
    }
    false
}

/// The catalog of a manifest and of the file names found in the texture
/// directory: one active entry for each binding of the manifest, in the
/// manifest's order, then one inactive entry for each listed file that the
/// manifest does not stand for, in the listing's order, under the uniform
/// name derived from the file name.
pub fn reconcile(manifest: &Vec<ManifestEntry>, listing: &Vec<String>) -> (r: Vec<BonzomaticTexture>)
    ensures
        entries(r@) == reconciled(bindings(manifest@), file_names(listing@)),
{
    let mut out: Vec<BonzomaticTexture> = Vec::new();
    let mut i: usize = 0;
    while i < manifest.len()
        invariant
            i <= manifest.len(),
            entries(out@) == declared(bindings(manifest@)).take(i as int),
        decreases manifest.len() - i,
    {
        let ghost before = entries(out@);
        let entry = BonzomaticTexture::new(
            manifest[i].uniform_name.clone(),
            manifest[i].relative_path.clone(),
            true,
        );
        assert(entry@ == declared_entry(bindings(manifest@)[i as int]));
        out.push(entry);
        i += 1;
        assert(entries(out@) =~= before.push(entry@));
        assert(declared(bindings(manifest@)).take(i as int) =~= declared(bindings(manifest@)).take(
            i - 1,
        ).push(entry@));
    }
    assert(declared(bindings(manifest@)).take(manifest.len() as int) =~= declared(
        bindings(manifest@),
    ));
    let mut k: usize = 0;
    assert(file_names(listing@).take(0) =~= Seq::<Seq<char>>::empty());
    assert(entries(out@) =~= declared(bindings(manifest@)) + Seq::<TextureView>::empty());
    while k < listing.len()
        invariant
            k <= listing.len(),
            entries(out@) == declared(bindings(manifest@)) + discovered(
                bindings(manifest@),
                file_names(listing@).take(k as int),
            ),
        decreases listing.len() - k,
    {
        let ghost before = entries(out@);
        let ghost seen = file_names(listing@).take(k as int);
        let ghost next = file_names(listing@).take(k + 1);
        assert(next.drop_last() =~= seen);
        assert(next.last() == listing@[k as int]@);
        let file = to_chars(listing[k].as_str());
        let derived = derive_name_chars(&file);
        if !represented(manifest, &file, &derived) {
            let mut path = to_chars("textures/");
            append_chars(&mut path, &file);
            let entry = BonzomaticTexture::new(from_chars(&derived), from_chars(&path), false);
            assert(entry@ == discovered_entry(file@));
            out.push(entry);
            assert(entries(out@) =~= before.push(entry@));
            assert(before.push(entry@) =~= declared(bindings(manifest@)) + discovered(
                bindings(manifest@),
                seen,
            ).push(entry@));
        }
        k += 1;
    }
    assert(file_names(listing@).take(listing.len() as int) =~= file_names(listing@));
    out
}

/// The state that the control loop owns: the project root, the catalog, and
/// whether an edit waits to be written back to the manifest.
#[derive(Debug)]
pub struct BonzomaticTextureManagerApp {
    /// The project root directory.
    pub bonzomatic_dir: String,
    /// The catalog.
    pub local_textures: Vec<BonzomaticTexture>,
    /// Whether the catalog was edited since it was last written back.
    pub changed: bool,
    /// Whether the backup of the manifest was seen to in this session.
    pub backup_checked: bool,
}

impl BonzomaticTextureManagerApp {
    /// The state of a session in the project root `bonzomatic_dir`, with an
    /// empty catalog.
    pub fn new(bonzomatic_dir: String) -> (app: Self)
        ensures
            app.bonzomatic_dir == bonzomatic_dir,
            app.local_textures@.len() == 0,
            !app.changed,
            !app.backup_checked,
    {
        BonzomaticTextureManagerApp {
            bonzomatic_dir,
            local_textures: Vec::new(),
            changed: false,
            backup_checked: false,
        }
    }

    /// The catalog as plain values.
    pub open spec fn catalog(&self) -> Seq<TextureView> {
        entries(self.local_textures@)
    }

    /// The place of the project-relative path `path` below the project root,
    /// in normal form. A path that is not relative, or that leaves the root,
    /// is refused.
    pub fn from_bonzomatic_dir(&self, path: &String) -> (r: Result<String, TextureError>)
        ensures
            match normal_form(path@) {
                Some(n) => r matches Ok(s) && s@ == under_root(self.bonzomatic_dir@, n),
                None => r == Err::<String, TextureError>(TextureError::PathEscape),
            },
    {
        let rel = to_chars(path.as_str());
        match normalize_chars(&rel) {
            Some(n) => {
                let root = to_chars(self.bonzomatic_dir.as_str());
                Ok(from_chars(&place_under(&root, &n)))
            },
            None => Err(TextureError::PathEscape),
        }
    }

    /// The path of the manifest file.
    pub fn get_config_file_path(&self) -> (r: String)
        ensures
            r@ == under_root(self.bonzomatic_dir@, "config.json"@),
    {
        let root = to_chars(self.bonzomatic_dir.as_str());
        let rel = to_chars("config.json");
        from_chars(&place_under(&root, &rel))
    }

    /// The path of the backup of the manifest file, beside it.
    pub fn get_backup_file_path(&self) -> (r: String)
        ensures
            r@ == under_root(self.bonzomatic_dir@, "_bk_config.json"@),
    {
        let root = to_chars(self.bonzomatic_dir.as_str());
        let rel = to_chars("_bk_config.json");
        from_chars(&place_under(&root, &rel))
    }

    /// The path of the texture directory.
    pub fn get_texture_dir_path(&self) -> (r: String)
        ensures
            r@ == under_root(self.bonzomatic_dir@, "textures"@),
    {
        let root = to_chars(self.bonzomatic_dir.as_str());
        let rel = to_chars("textures");
        from_chars(&place_under(&root, &rel))
    }

    /// Flips the state of the entry at `index` and marks the catalog as
    /// edited. An index beyond the catalog changes nothing.
    pub fn toggle_active(&mut self, index: usize) -> (done: bool)
        ensures
            done == (index < old(self).local_textures@.len()),
            final(self).bonzomatic_dir == old(self).bonzomatic_dir,
            final(self).backup_checked == old(self).backup_checked,
            done ==> final(self).changed && final(self).catalog() == old(self).catalog().update(
                index as int,
                TextureView {
                    active: !old(self).catalog()[index as int].active,
                    ..old(self).catalog()[index as int]
                },
            ),
            !done ==> final(self).changed == old(self).changed && final(self).local_textures
                == old(self).local_textures,
    {
        if index >= self.local_textures.len() {
            return false;
        }
        let ghost before = self.catalog();
        let entry = BonzomaticTexture::new(
            self.local_textures[index].glsl_name.clone(),
            self.local_textures[index].local_file.clone(),
            !self.local_textures[index].activated,
        );
        self.local_textures.set(index, entry);
        self.changed = true;
        assert(self.catalog() =~= before.update(
            index as int,
            TextureView { active: !before[index as int].active, ..before[index as int] },
        ));
        true
    }

    /// Gives the entry at `index` the uniform name `name` and marks the
    /// catalog as edited. An index beyond the catalog changes nothing.
    pub fn set_uniform_name(&mut self, index: usize, name: String) -> (done: bool)
        ensures
            done == (index < old(self).local_textures@.len()),
            final(self).bonzomatic_dir == old(self).bonzomatic_dir,
            final(self).backup_checked == old(self).backup_checked,
            done ==> final(self).changed && final(self).catalog() == old(self).catalog().update(
                index as int,
                TextureView { name: name@, ..old(self).catalog()[index as int] },
            ),
            !done ==> final(self).changed == old(self).changed && final(self).local_textures
                == old(self).local_textures,
    {
        if index >= self.local_textures.len() {
            return false;
        }
        let ghost before = self.catalog();
        let entry = BonzomaticTexture::new(
            name,
            self.local_textures[index].local_file.clone(),
            self.local_textures[index].activated,
        );
        self.local_textures.set(index, entry);
        self.changed = true;
        assert(self.catalog() =~= before.update(
            index as int,
            TextureView { name: name@, ..before[index as int] },
        ));
        true
    }

    /// Gives the entry at `index` the path `path` and marks the catalog as
    /// edited. A path that leaves the project root is refused, and an index
    /// beyond the catalog changes nothing; in both cases the state stays as
    /// it was.
    pub fn set_relative_path(&mut self, index: usize, path: String) -> (r: Result<
        bool,
        TextureError,
    >)
        ensures
            final(self).bonzomatic_dir == old(self).bonzomatic_dir,
            final(self).backup_checked == old(self).backup_checked,
            normal_form(path@) is None ==> r == Err::<bool, TextureError>(TextureError::PathEscape),
            normal_form(path@) is Some ==> r == Ok::<bool, TextureError>(
                index < old(self).local_textures@.len(),
            ),
            r == Ok::<bool, TextureError>(true) ==> final(self).changed && final(self).catalog()
                == old(self).catalog().update(
                index as int,
                TextureView { path: path@, ..old(self).catalog()[index as int] },
            ),
            r != Ok::<bool, TextureError>(true) ==> final(self).changed == old(self).changed
                && final(self).local_textures == old(self).local_textures,
    {
        let chars = to_chars(path.as_str());
        if normalize_chars(&chars).is_none() {
            return Err(TextureError::PathEscape);
        }
        if index >= self.local_textures.len() {
            return Ok(false);
        }
        let ghost before = self.catalog();
        let entry = BonzomaticTexture::new(
            self.local_textures[index].glsl_name.clone(),
            path,
            self.local_textures[index].activated,
        );
        self.local_textures.set(index, entry);
        self.changed = true;
        assert(self.catalog() =~= before.update(
            index as int,
            TextureView { path: path@, ..before[index as int] },
        ));
        Ok(true)
    }

    /// Replaces the catalog by the one reconciled from `manifest` and
    /// `listing`. Where the texture directory is absent (`listing` is
    /// `None`) the catalog becomes empty.
    pub fn reconcile_with(&mut self, manifest: &Vec<ManifestEntry>, listing: Option<&Vec<String>>)
        ensures
            final(self).bonzomatic_dir == old(self).bonzomatic_dir,
            final(self).changed == old(self).changed,
            final(self).backup_checked == old(self).backup_checked,
            final(self).catalog() == (match listing {
                Some(l) => reconciled(bindings(manifest@), file_names(l@)),
                None => Seq::empty(),
            }),
    {
        match listing {
            Some(l) => {
                self.local_textures = reconcile(manifest, l);
            },
            None => {
                self.local_textures = Vec::new();
                assert(self.catalog() =~= Seq::<TextureView>::empty());
            },
        }
    }

    /// The bindings that the catalog gives the manifest: those of its active
    /// entries, in order, each uniform name once, with the path of the last
    /// active entry that has it.
    pub fn active_entries(&self) -> (r: Vec<ManifestEntry>)
        ensures
            bindings(r@) == active_table(self.catalog()),
    {
        active_bindings(&self.local_textures)
    }
}

/// Whether an active entry after `i` has the uniform name `name`.
fn shadowed(catalog: &Vec<BonzomaticTexture>, i: usize, name: &Vec<char>) -> (r: bool)
    requires
        i < catalog.len(),
        name@ == catalog@[i as int]@.name,
    ensures
        r == is_shadowed(entries(catalog@), i as int),
{
    let mut j: usize = i + 1;
    while j < catalog.len()
        invariant
            i < j <= catalog.len(),
            name@ == catalog@[i as int]@.name,
            forall|k: int|
                i < k < j ==> !((#[trigger] entries(catalog@)[k]).active && entries(catalog@)[k].name
                    == entries(catalog@)[i as int].name),
        decreases catalog.len() - j,
    {
        assert(entries(catalog@)[j as int] == catalog@[j as int]@);
        assert(entries(catalog@)[i as int] == catalog@[i as int]@);
        if catalog[j].activated {
            let other = to_chars(catalog[j].glsl_name.as_str());
            if chars_eq(&other, name) {
                return true;
            }
        }
        j += 1;
    }
    false
}

/// The bindings that a catalog gives the manifest.
pub fn active_bindings(catalog: &Vec<BonzomaticTexture>) -> (r: Vec<ManifestEntry>)
    ensures
        bindings(r@) == active_table(entries(catalog@)),
{
    let mut out: Vec<ManifestEntry> = Vec::new();
    let mut i: usize = 0;
    assert(bindings(out@) =~= table_upto(entries(catalog@), 0));
    while i < catalog.len()
        invariant
            i <= catalog.len(),
            bindings(out@) == table_upto(entries(catalog@), i as int),
        decreases catalog.len() - i,
    {
        let ghost before = bindings(out@);
        assert(entries(catalog@)[i as int] == catalog@[i as int]@);
        if catalog[i].activated {
            let name = to_chars(catalog[i].glsl_name.as_str());
            if !shadowed(catalog, i, &name) {
                let entry = ManifestEntry {
                    uniform_name: catalog[i].glsl_name.clone(),
                    relative_path: catalog[i].local_file.clone(),
                };
                out.push(entry);
                assert(bindings(out@) =~= before.push(
                    (catalog@[i as int]@.name, catalog@[i as int]@.path),
                ));
            }
        }
        i += 1;
    }
    out
}

} // verus!
