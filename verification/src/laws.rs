//! What holds of the library as a whole: laws that relate several of its
//! functions, each proved from their definitions.

use crate::archive::{zip_contents, EntryView};
use crate::catalog::{
    active_table, declared, discovered, is_shadowed, is_written, reconciled, table_upto,
    texture_path, TextureView,
};
use crate::config::{comment_marker, comment_start, strip_line, strip_lines, stripped};
use crate::error::TextureError;
use crate::import::{
    drop_kind, drop_plan, image_target, import_plan, lemma_image_target_is_inside, normal_forms,
    planned, target_of, under_textures, DropKind, Target,
};
use crate::name::{candidate, collides, first_free, free_name, is_taken, lemma_first_free};
use crate::path::{base_name, is_contained, lemma_normal_form_is_fixed, normal_form};
use crate::text::{
    free_of, last_of, lemma_join_pieces, lemma_last_occurrence_from, lemma_last_of_bounds,
    lemma_pieces_free, lemma_pieces_joined, lemma_pieces_nonempty, pieces,
};
use vstd::prelude::*;

verus! {

/// The lines of a text: what stands between its line feeds.
pub open spec fn lines_of(text: Seq<char>) -> Seq<Seq<char>> {
    pieces(text, seq!['\n'])
}

/// Whether no line of the text holds a comment.
pub open spec fn is_clean(text: Seq<char>) -> bool {
    forall|i: int|
        0 <= i < lines_of(text).len() ==> comment_start(#[trigger] lines_of(text)[i]) is None
}

/// Whether stripping each line of the text once leaves no comment in it.
pub open spec fn settles(text: Seq<char>) -> bool {
    forall|i: int|
        0 <= i < lines_of(text).len() ==> comment_start(
            strip_line(#[trigger] lines_of(text)[i]),
        ) is None
}

/// Stripping a text without comments changes nothing.
pub proof fn lemma_strip_clean_is_identity(text: Seq<char>)
    requires
        is_clean(text),
    ensures
        stripped(text) == text,
{
    let lines = lines_of(text);
    assert(strip_lines(lines) =~= lines) by {
        assert forall|i: int| 0 <= i < lines.len() implies strip_lines(lines)[i] == lines[i] by {
            assert(comment_start(lines[i]) is None);
        }
    }
    lemma_join_pieces(text, '\n');
}

/// Stripping a line keeps its beginning, and with it everything up to and
/// including the last double quote of the line: no `//` that stands inside
/// a string before that quote is taken out.
pub proof fn lemma_strip_keeps_quoted(line: Seq<char>)
    ensures
        strip_line(line).is_prefix_of(line),
        last_of(line, seq!['"']) < strip_line(line).len(),
        forall|j: int| 0 <= j <= last_of(line, seq!['"']) ==> strip_line(line)[j] == line[j],
{
    lemma_last_of_bounds(line, seq!['"']);
    lemma_last_occurrence_from(line, comment_marker(), line.len() - comment_marker().len());
}

/// Stripping a stripped text changes nothing, where one stripping leaves no
/// comment in any line. (A line such as `a // b // c` keeps a comment after
/// one stripping.)
pub proof fn lemma_strip_is_idempotent(text: Seq<char>)
    requires
        settles(text),
    ensures
        stripped(stripped(text)) == stripped(text),
{
    let feed = seq!['\n'];
    let lines = lines_of(text);
    let once = strip_lines(lines);
    lemma_pieces_free(text, feed);
    lemma_pieces_nonempty(text, feed);
    assert forall|i: int| 0 <= i < once.len() implies free_of(#[trigger] once[i], feed) by {
        lemma_strip_keeps_quoted(lines[i]);
        assert(free_of(lines[i], feed));
        assert forall|j: int| 0 <= j < once[i].len() implies !feed.contains(
            #[trigger] once[i][j],
        ) by {
            assert(once[i][j] == lines[i][j]);
        }
    }
    assert(feed[0] == '\n');
    lemma_pieces_joined(once, '\n', feed);
    assert(lines_of(stripped(text)) == once);
    assert(strip_lines(once) =~= once) by {
        assert forall|i: int| 0 <= i < once.len() implies strip_lines(once)[i] == once[i] by {
            assert(comment_start(strip_line(lines[i])) is None);
        }
    }
}

/// Whether no two bindings of the manifest have the same uniform name.
pub open spec fn has_distinct_names(manifest: Seq<(Seq<char>, Seq<char>)>) -> bool {
    forall|i: int, j: int|
        0 <= i < manifest.len() && 0 <= j < manifest.len() && i != j ==> (#[trigger] manifest[i]).0
            != (#[trigger] manifest[j]).0
}

/// No discovered entry is active.
pub proof fn lemma_discovered_inactive(manifest: Seq<(Seq<char>, Seq<char>)>, listing: Seq<Seq<char>>)
    ensures
        forall|k: int|
            0 <= k < discovered(manifest, listing).len() ==> !(#[trigger] discovered(
                manifest,
                listing,
            )[k]).active,
    decreases listing.len(),
{
    if listing.len() > 0 {
        lemma_discovered_inactive(manifest, listing.drop_last());
        let found = discovered(manifest, listing);
        let before = discovered(manifest, listing.drop_last());
        assert forall|k: int| 0 <= k < found.len() implies !(#[trigger] found[k]).active by {
            if k < before.len() {
                assert(found[k] == before[k]);
            }
        }
    }
}

proof fn lemma_table_of_reconciled(
    manifest: Seq<(Seq<char>, Seq<char>)>,
    listing: Seq<Seq<char>>,
    n: int,
)
    requires
        has_distinct_names(manifest),
        0 <= n <= reconciled(manifest, listing).len(),
    ensures
        table_upto(reconciled(manifest, listing), n) == if n <= manifest.len() {
            manifest.take(n)
        } else {
            manifest
        },
    decreases n,
{
    let catalog = reconciled(manifest, listing);
    lemma_discovered_inactive(manifest, listing);
    assert forall|k: int| manifest.len() <= k < catalog.len() implies !(#[trigger] catalog[k]).active by {
        assert(catalog[k] == discovered(manifest, listing)[k - manifest.len()]);
    }
    if n > 0 {
        lemma_table_of_reconciled(manifest, listing, n - 1);
        let i = n - 1;
        if i < manifest.len() {
            assert(catalog[i] == declared(manifest)[i]);
            assert(!is_shadowed(catalog, i)) by {
                if is_shadowed(catalog, i) {
                    let j = choose|j: int|
                        i < j < catalog.len() && (#[trigger] catalog[j]).active && catalog[j].name
                            == catalog[i].name;
                    assert(j < manifest.len());
                    assert(catalog[j] == declared(manifest)[j]);
                    assert(manifest[i].0 != manifest[j].0);
                }
            }
            assert(is_written(catalog, i));
            assert(manifest.take(n) =~= manifest.take(n - 1).push(manifest[i]));
        } else {
            assert(!is_written(catalog, i));
            assert(manifest.take(manifest.len() as int) =~= manifest);
        }
    } else {
        assert(manifest.take(0) =~= Seq::<(Seq<char>, Seq<char>)>::empty());
    }
}

/// The active entries of a reconciled catalog give back the manifest it was
/// reconciled from, whatever the texture directory holds: a manifest that
/// is written back, or carried to another project with its textures, binds
/// the same names to the same paths. The uniform names of the manifest have
/// to be distinct, as the keys of a JSON object are; of two bindings with
/// one name only the last is written back.
pub proof fn lemma_active_entries_are_the_manifest(
    manifest: Seq<(Seq<char>, Seq<char>)>,
    listing: Seq<Seq<char>>,
)
    requires
        has_distinct_names(manifest),
    ensures
        active_table(reconciled(manifest, listing)) == manifest,
{
    let catalog = reconciled(manifest, listing);
    lemma_table_of_reconciled(manifest, listing, catalog.len() as int);
    assert(manifest.take(manifest.len() as int) =~= manifest);
}

/// Reconciling is idempotent: writing the active entries of a reconciled
/// catalog back to the manifest and reconciling again, with the same
/// directory listing, gives the same catalog.
pub proof fn lemma_reconcile_is_idempotent(
    manifest: Seq<(Seq<char>, Seq<char>)>,
    listing: Seq<Seq<char>>,
)
    requires
        has_distinct_names(manifest),
    ensures
        reconciled(active_table(reconciled(manifest, listing)), listing) == reconciled(
            manifest,
            listing,
        ),
{
    lemma_active_entries_are_the_manifest(manifest, listing);
}

/// The name that the collision loop settles on collides with no entry of
/// the catalog, its path is none of the occupied ones, and every name tried
/// before it is in the way.
pub proof fn lemma_free_name_is_free(
    catalog: Seq<TextureView>,
    taken: Seq<Seq<char>>,
    name: Seq<char>,
)
    ensures
        match free_name(catalog, taken, name) {
            Some(n) => !collides(catalog, n) && !taken.contains(texture_path(n)) && exists|k: nat|
                1 <= k && n == #[trigger] candidate(name, k) && forall|j: nat|
                    1 <= j < k ==> is_taken(catalog, taken, #[trigger] candidate(name, j)),
            None => forall|k: nat|
                1 <= k <= u64::MAX ==> is_taken(catalog, taken, #[trigger] candidate(name, k)),
        },
{
    lemma_first_free(catalog, taken, name, 1, u64::MAX as nat);
    match first_free(catalog, taken, name, 1, u64::MAX as nat) {
        Some(k) => {
            assert(candidate(name, k) == free_name(catalog, taken, name).unwrap());
        },
        None => {},
    }
}

/// A dropped image overwrites nothing: it goes to a path of the texture
/// directory whose file name collides with no entry of the catalog, and at
/// which no file is on disk. The path holds no detour and lies inside the
/// project root.
pub proof fn lemma_image_target_is_free(
    catalog: Seq<TextureView>,
    source: Seq<char>,
    existing: Seq<Seq<char>>,
)
    ensures
        image_target(catalog, source, existing) matches Ok(p) ==> free_name(
            catalog,
            normal_forms(existing),
            base_name(source),
        ) matches Some(n) && p == texture_path(n) && !collides(catalog, n) && is_contained(p)
            && forall|i: int|
            0 <= i < existing.len() ==> normal_form(#[trigger] existing[i]) != Some(p),
{
    lemma_free_name_is_free(catalog, normal_forms(existing), base_name(source));
    lemma_image_target_is_inside(catalog, source, existing);
    if let Ok(p) = image_target(catalog, source, existing) {
        assert forall|i: int| 0 <= i < existing.len() implies normal_form(
            #[trigger] existing[i],
        ) != Some(p) by {
            if normal_form(existing[i]) == Some(p) {
                lemma_normal_forms_hold(existing, i);
            }
        }
    }
}

/// Whatever is dropped, nothing on disk is overwritten: no file that
/// `import` plans goes to the place of a file that is on disk.
pub proof fn lemma_drop_overwrites_nothing(
    catalog: Seq<TextureView>,
    source: Seq<char>,
    content: Seq<u8>,
    existing: Seq<Seq<char>>,
)
    ensures
        drop_plan(catalog, source, content, existing) matches Ok(plan) ==> forall|k: int, i: int|
            0 <= k < plan.len() && 0 <= i < existing.len() ==> normal_form(#[trigger] existing[i])
                != Some((#[trigger] plan[k]).0),
{
    lemma_image_target_is_free(catalog, source, existing);
    match drop_kind(source) {
        Some(DropKind::Archive) => {
            if let Some(es) = zip_contents(content) {
                lemma_import_overwrites_nothing(es, existing);
            }
        },
        _ => {},
    }
}

/// No planned file goes to an occupied path, and no two go to one path.
pub proof fn lemma_planned_is_fresh(entries: Seq<EntryView>, taken: Seq<Seq<char>>)
    ensures
        forall|k: int|
            0 <= k < planned(entries, taken).len() ==> !taken.contains(
                (#[trigger] planned(entries, taken)[k]).0,
            ),
        forall|k: int, l: int|
            0 <= k < l < planned(entries, taken).len() ==> (#[trigger] planned(entries, taken)[k]).0
                != (#[trigger] planned(entries, taken)[l]).0,
    decreases entries.len(),
{
    if entries.len() > 0 {
        let e = entries[0];
        let rest = entries.drop_first();
        let plan = planned(entries, taken);
        match target_of(e) {
            Target::Inside(d) => {
                if e.data is Some && !taken.contains(d) {
                    let more = taken.push(d);
                    let tail = planned(rest, more);
                    lemma_planned_is_fresh(rest, more);
                    assert(more[taken.len() as int] == d);
                    assert forall|k: int| 0 <= k < plan.len() implies !taken.contains(
                        (#[trigger] plan[k]).0,
                    ) by {
                        if k > 0 {
                            assert(plan[k] == tail[k - 1]);
                            assert(!more.contains(tail[k - 1].0));
                            if taken.contains(plan[k].0) {
                                let w = choose|w: int| 0 <= w < taken.len() && taken[w] == plan[k].0;
                                assert(more[w] == plan[k].0);
                            }
                        }
                    }
                    assert forall|k: int, l: int| 0 <= k < l < plan.len() implies (#[trigger] plan[k]).0
                        != (#[trigger] plan[l]).0 by {
                        assert(plan[l] == tail[l - 1]);
                        if k == 0 {
                            assert(!more.contains(tail[l - 1].0));
                        } else {
                            assert(plan[k] == tail[k - 1]);
                        }
                    }
                } else {
                    lemma_planned_is_fresh(rest, taken);
                    assert(plan == planned(rest, taken));
                }
            },
            Target::Skipped => {
                lemma_planned_is_fresh(rest, taken);
                assert(plan == planned(rest, taken));
            },
            Target::Escaping => {
                lemma_planned_is_fresh(rest, taken);
                assert(plan == planned(rest, taken));
            },
        }
    }
}

/// Every planned file goes to a path under `textures/` that holds no detour:
/// the path is its own normal form, and so lies inside the project root.
pub proof fn lemma_planned_stays_in_textures(entries: Seq<EntryView>, taken: Seq<Seq<char>>)
    ensures
        forall|k: int|
            0 <= k < planned(entries, taken).len() ==> {
                let d = (#[trigger] planned(entries, taken)[k]).0;
                under_textures(d) && normal_form(d) == Some(d) && is_contained(d)
            },
    decreases entries.len(),
{
    if entries.len() > 0 {
        let e = entries[0];
        let rest = entries.drop_first();
        let plan = planned(entries, taken);
        match target_of(e) {
            Target::Inside(d) => {
                if e.data is Some && !taken.contains(d) {
                    let tail = planned(rest, taken.push(d));
                    lemma_planned_stays_in_textures(rest, taken.push(d));
                    assert(normal_form(d) == Some(d)) by {
                        reveal_strlit("textures/");
                        let prefix = "textures/"@;
                        assert(under_textures(d));
                        assert(d.subrange(0, prefix.len() as int)[0] == prefix[0]);
                        assert(d.subrange(0, prefix.len() as int)[1] == prefix[1]);
                        assert(d[0] == 't' && d[1] == 'e');
                        lemma_normal_form_is_fixed(e.name.unwrap());
                    }
                    assert forall|k: int| 0 <= k < plan.len() implies {
                        let p = (#[trigger] plan[k]).0;
                        under_textures(p) && normal_form(p) == Some(p) && is_contained(p)
                    } by {
                        if k > 0 {
                            assert(plan[k] == tail[k - 1]);
                        }
                    }
                } else {
                    lemma_planned_stays_in_textures(rest, taken);
                    assert(plan == planned(rest, taken));
                }
            },
            Target::Skipped => {
                lemma_planned_stays_in_textures(rest, taken);
                assert(plan == planned(rest, taken));
            },
            Target::Escaping => {
                lemma_planned_stays_in_textures(rest, taken);
                assert(plan == planned(rest, taken));
            },
        }
    }
}

/// The normal form of each path that has one is among the normal forms of
/// the paths.
pub proof fn lemma_normal_forms_hold(paths: Seq<Seq<char>>, i: int)
    requires
        0 <= i < paths.len(),
        normal_form(paths[i]) is Some,
    ensures
        normal_forms(paths).contains(normal_form(paths[i]).unwrap()),
    decreases paths.len(),
{
    let before = normal_forms(paths.drop_last());
    if i == paths.len() - 1 {
        let all = normal_forms(paths);
        assert(all[all.len() - 1] == normal_form(paths[i]).unwrap());
    } else {
        assert(paths.drop_last()[i] == paths[i]);
        lemma_normal_forms_hold(paths.drop_last(), i);
        let n = normal_form(paths[i]).unwrap();
        let w = choose|w: int| 0 <= w < before.len() && before[w] == n;
        assert(normal_forms(paths)[w] == n);
    }
}

/// Importing an archive overwrites nothing: no file of the plan goes to the
/// place of a file that is on disk, and no two files of the plan go to one
/// place.
pub proof fn lemma_import_overwrites_nothing(entries: Seq<EntryView>, existing: Seq<Seq<char>>)
    ensures
        import_plan(entries, existing) matches Ok(plan) ==> (forall|k: int, i: int|
            0 <= k < plan.len() && 0 <= i < existing.len() ==> normal_form(#[trigger] existing[i])
                != Some((#[trigger] plan[k]).0)) && (forall|k: int, l: int|
            0 <= k < l < plan.len() ==> (#[trigger] plan[k]).0 != (#[trigger] plan[l]).0),
{
    if let Ok(plan) = import_plan(entries, existing) {
        lemma_planned_is_fresh(entries, normal_forms(existing));
        assert forall|k: int, i: int|
            0 <= k < plan.len() && 0 <= i < existing.len() implies normal_form(
            #[trigger] existing[i],
        ) != Some((#[trigger] plan[k]).0) by {
            if normal_form(existing[i]) == Some(plan[k].0) {
                lemma_normal_forms_hold(existing, i);
            }
        }
    }
}

/// Importing an archive stays inside the texture directory: every file of
/// the plan goes to a path under `textures/` that lies inside the project
/// root.
pub proof fn lemma_import_stays_inside(entries: Seq<EntryView>, existing: Seq<Seq<char>>)
    ensures
        import_plan(entries, existing) matches Ok(plan) ==> forall|k: int|
            0 <= k < plan.len() ==> under_textures((#[trigger] plan[k]).0) && is_contained(
                plan[k].0,
            ),
{
    lemma_planned_stays_in_textures(entries, normal_forms(existing));
}

/// An archive with an entry that leads out of the project root is refused
/// as a whole, whatever else it holds and whatever is on disk.
pub proof fn lemma_escape_refuses_archive(entries: Seq<EntryView>, existing: Seq<Seq<char>>, i: int)
    requires
        0 <= i < entries.len(),
        target_of(entries[i]) is Escaping,
    ensures
        import_plan(entries, existing) == Err::<Seq<(Seq<char>, Seq<u8>)>, TextureError>(
            TextureError::PathEscape,
        ),
{
}

} // verus!
