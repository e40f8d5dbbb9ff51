//! The manifest file: a JSON document whose `textures` member binds uniform
//! names to image paths, and whose lines may end in `//` comments.

use crate::catalog::{
    active_table, bindings, file_names, reconciled, BonzomaticTextureManagerApp, ManifestEntry,
    TextureView,
};
use crate::error::TextureError;
use crate::text::{
    append_chars, chars_eq, find_last, from_chars, join, joined, last_index_of, last_occurrence,
    last_of, lemma_last_occurrence_from, pieces, slice_chars, split, to_chars, views,
};
use vstd::prelude::*;

verus! {

/// The marker that starts a comment.
pub open spec fn comment_marker() -> Seq<char> {
    seq!['/', '/']
}

/// Where the comment of a line starts: at the last `//` of the line, if that
/// stands behind the last double quote of the line, or if the line holds no
/// double quote.
pub open spec fn comment_start(line: Seq<char>) -> Option<int> {
    match last_occurrence(line, comment_marker()) {
        Some(r) => if last_of(line, seq!['"']) < r {
            Some(r)
        } else {
            None
        },
        None => None,
    }
}

/// The line without its comment.
pub open spec fn strip_line(line: Seq<char>) -> Seq<char> {
    match comment_start(line) {
        Some(r) => line.take(r),
        None => line,
    }
}

/// Each of the lines without its comment.
pub open spec fn strip_lines(lines: Seq<Seq<char>>) -> Seq<Seq<char>> {
    lines.map_values(|l: Seq<char>| strip_line(l))
}

/// The text with the comment of each of its lines taken out. The lines are
/// what stands between the line feeds of the text, and the line feeds stay.
pub open spec fn stripped(text: Seq<char>) -> Seq<char> {
    joined(strip_lines(pieces(text, seq!['\n'])), '\n')
}

/// The line without its comment.
pub fn strip_line_chars(line: &Vec<char>) -> (r: Vec<char>)
    ensures
        r@ == strip_line(line@),
{
    let mut marker: Vec<char> = Vec::new();
    marker.push('/');
    marker.push('/');
    assert(marker@ =~= comment_marker());
    let mut quote: Vec<char> = Vec::new();
    quote.push('"');
    assert(quote@ =~= seq!['"']);
    proof {
        lemma_last_occurrence_from(line@, marker@, line@.len() - marker@.len());
    }
    match find_last(line, &marker) {
        Some(r) => {
            let behind = match last_index_of(line, &quote) {
                Some(q) => q < r,
                None => true,
            };
            if behind {
                slice_chars(line, 0, r)
            } else {
                let copy = slice_chars(line, 0, line.len());
                assert(copy@ =~= line@);
                copy
            }
        },
        None => {
            let copy = slice_chars(line, 0, line.len());
            assert(copy@ =~= line@);
            copy
        },
    }
}

/// The text with the comment of each of its lines taken out.
pub fn strip_comments(text: &str) -> (r: String)
    ensures
        r@ == stripped(text@),
{
    let chars = to_chars(text);
    let mut feed: Vec<char> = Vec::new();
    feed.push('\n');
    assert(feed@ =~= seq!['\n']);
    let lines = split(&chars, &feed);
    let mut out: Vec<Vec<char>> = Vec::new();
    let mut i: usize = 0;
    while i < lines.len()
        invariant
            i <= lines.len(),
            out.len() == i,
            forall|j: int| 0 <= j < i ==> (#[trigger] out@[j])@ == strip_line(lines@[j]@),
        decreases lines.len() - i,
    {
        out.push(strip_line_chars(&lines[i]));
        i += 1;
    }
    assert(views(out@) =~= strip_lines(views(lines@)));
    from_chars(&join(&out, '\n'))
}

/// `serde_json::Error`, of which nothing is read.
#[verifier::external_type_specification]
#[verifier::external_body]
pub struct ExJsonError(serde_json::Error);

/// The pairs of character sequences that pairs of strings hold.
pub open spec fn pairs(v: Seq<(String, String)>) -> Seq<(Seq<char>, Seq<char>)> {
    v.map_values(|p: (String, String)| (p.0@, p.1@))
}

/// What `serde_json::from_str` makes of `text` when asked for a JSON object:
/// its members in the order in which the object hands them out, each as its
/// key and the compact JSON text of its value; `None` where `text` is not
/// the JSON text of an object.
pub uninterp spec fn object_members(text: Seq<char>) -> Option<Seq<(Seq<char>, Seq<char>)>>;

/// `serde_json::from_str`, asked for a `serde_json::Map`: the members of the
/// JSON object that `text` holds, each value written out again by
/// `Value::to_string`. It fails where `text` is not the JSON text of an
/// object.
#[verifier::external_body]
fn json_members(text: &str) -> (r: Result<Vec<(String, String)>, serde_json::Error>)
    ensures
        match r {
            Ok(ms) => object_members(text@) == Some(pairs(ms@)),
            Err(_) => object_members(text@) is None,
        },
{
    let map: serde_json::Map<String, serde_json::Value> = serde_json::from_str(text)?;
    Ok(map.into_iter().map(|(k, v)| (k, v.to_string())).collect())
}

/// What `serde_json::from_str` makes of `text` when asked for a string: the
/// string that the JSON string literal `text` stands for; `None` where
/// `text` is not a JSON string literal.
pub uninterp spec fn string_value(text: Seq<char>) -> Option<Seq<char>>;

/// `serde_json::from_str`, asked for a `String`.
#[verifier::external_body]
fn json_string(text: &str) -> (r: Result<String, serde_json::Error>)
    ensures
        match r {
            Ok(s) => string_value(text@) == Some(s@),
            Err(_) => string_value(text@) is None,
        },
{
    serde_json::from_str::<String>(text)
}

/// The JSON string literal that `Value::to_string` writes for the string
/// `s`.
pub uninterp spec fn quoted(s: Seq<char>) -> Seq<char>;

/// `Value::to_string` of `serde_json`, on the JSON string `s`.
#[verifier::external_body]
fn json_quote(s: &str) -> (r: String)
    ensures
        r@ == quoted(s@),
{
    serde_json::Value::String(s.to_owned()).to_string()
}

/// What `serde_json::to_string_pretty` writes for the JSON value that
/// `serde_json::from_str` reads from `text`; `None` where `text` is not JSON.
pub uninterp spec fn pretty_json(text: Seq<char>) -> Option<Seq<char>>;

/// `serde_json::from_str` followed by `serde_json::to_string_pretty`: the
/// JSON value of `text`, written out again with indentation.
#[verifier::external_body]
fn json_pretty(text: &str) -> (r: Result<String, serde_json::Error>)
    ensures
        match r {
            Ok(s) => pretty_json(text@) == Some(s@),
            Err(_) => pretty_json(text@) is None,
        },
{
    let value: serde_json::Value = serde_json::from_str(text)?;
    serde_json::to_string_pretty(&value)
}

/// The value of the first member called `key`.
pub open spec fn member_value(members: Seq<(Seq<char>, Seq<char>)>, key: Seq<char>) -> Option<
    Seq<char>,
>
    decreases members.len(),
{
    if members.len() == 0 {
        None
    } else if members[0].0 == key {
        Some(members[0].1)
    } else {
        member_value(members.drop_first(), key)
    }
}

/// The members that are not called `key`, in order.
pub open spec fn without_member(members: Seq<(Seq<char>, Seq<char>)>, key: Seq<char>) -> Seq<
    (Seq<char>, Seq<char>),
>
    decreases members.len(),
{
    if members.len() == 0 {
        Seq::empty()
    } else {
        let before = without_member(members.drop_last(), key);
        if members.last().0 == key {
            before
        } else {
            before.push(members.last())
        }
    }
}

/// The members with the one called `key` set to `value`: the others in
/// order, then that one.
pub open spec fn with_member(
    members: Seq<(Seq<char>, Seq<char>)>,
    key: Seq<char>,
    value: Seq<char>,
) -> Seq<(Seq<char>, Seq<char>)> {
    without_member(members, key).push((key, value))
}

/// The JSON text of one member: its key as a string literal, a colon, and
/// the text of its value.
pub open spec fn member_text(member: (Seq<char>, Seq<char>)) -> Seq<char> {
    quoted(member.0) + seq![':'] + member.1
}

/// The JSON text of the object with the given members.
pub open spec fn object_text(members: Seq<(Seq<char>, Seq<char>)>) -> Seq<char> {
    seq!['{'] + joined(members.map_values(|m: (Seq<char>, Seq<char>)| member_text(m)), ',')
        + seq!['}']
}

/// The bindings read from the members of the `textures` object, each value
/// being a JSON string literal; `None` where one is not.
pub open spec fn string_table(members: Seq<(Seq<char>, Seq<char>)>) -> Option<
    Seq<(Seq<char>, Seq<char>)>,
> {
    if forall|i: int| 0 <= i < members.len() ==> string_value(#[trigger] members[i].1) is Some {
        Some(
            members.map_values(
                |m: (Seq<char>, Seq<char>)| (m.0, string_value(m.1).unwrap()),
            ),
        )
    } else {
        None
    }
}

/// The members of a table of bindings: each path as a JSON string literal.
pub open spec fn table_members(table: Seq<(Seq<char>, Seq<char>)>) -> Seq<(Seq<char>, Seq<char>)> {
    table.map_values(|b: (Seq<char>, Seq<char>)| (b.0, quoted(b.1)))
}

/// The bindings that the manifest text declares: the text is stripped of its
/// comments and has to be a JSON object with a member `textures`, itself an
/// object whose values are all strings. `None` where it is not.
pub open spec fn manifest_table(text: Seq<char>) -> Option<Seq<(Seq<char>, Seq<char>)>> {
    match object_members(stripped(text)) {
        None => None,
        Some(members) => match member_value(members, "textures"@) {
            None => None,
            Some(textures) => match object_members(textures) {
                None => None,
                Some(table) => string_table(table),
            },
        },
    }
}

/// The manifest text with its `textures` member replaced by `table` and
/// every other member kept, written as indented JSON without comments;
/// `None` where the text, stripped of its comments, is not a JSON object.
pub open spec fn rewritten(text: Seq<char>, table: Seq<(Seq<char>, Seq<char>)>) -> Option<
    Seq<char>,
> {
    match object_members(stripped(text)) {
        None => None,
        Some(members) => pretty_json(
            object_text(with_member(members, "textures"@, object_text(table_members(table)))),
        ),
    }
}

/// The value of the first member called `key`.
pub fn find_member(members: &Vec<(String, String)>, key: &str) -> (r: Option<String>)
    ensures
        match r {
            Some(v) => member_value(pairs(members@), key@) == Some(v@),
            None => member_value(pairs(members@), key@) is None,
        },
{
    let wanted = to_chars(key);
    let mut i: usize = 0;
    assert(pairs(members@).skip(0) =~= pairs(members@));
    while i < members.len()
        invariant
            i <= members.len(),
            wanted@ == key@,
            member_value(pairs(members@), key@) == member_value(
                pairs(members@).skip(i as int),
                key@,
            ),
        decreases members.len() - i,
    {
        let ghost rest = pairs(members@).skip(i as int);
        assert(rest[0] == (members@[i as int].0@, members@[i as int].1@));
        assert(rest.drop_first() =~= pairs(members@).skip(i + 1));
        let name = to_chars(members[i].0.as_str());
        if chars_eq(&name, &wanted) {
            return Some(members[i].1.clone());
        }
        i += 1;
    }
    None
}

/// The members with the one called `key` set to `value`.
pub fn set_member(members: &Vec<(String, String)>, key: &str, value: String) -> (r: Vec<
    (String, String),
>)
    ensures
        pairs(r@) == with_member(pairs(members@), key@, value@),
{
    let wanted = to_chars(key);
    let mut out: Vec<(String, String)> = Vec::new();
    let mut i: usize = 0;
    assert(pairs(members@).take(0) =~= Seq::<(Seq<char>, Seq<char>)>::empty());
    assert(pairs(out@) =~= Seq::<(Seq<char>, Seq<char>)>::empty());
    while i < members.len()
        invariant
            i <= members.len(),
            wanted@ == key@,
            pairs(out@) == without_member(pairs(members@).take(i as int), key@),
        decreases members.len() - i,
    {
        let ghost before = pairs(out@);
        let ghost next = pairs(members@).take(i + 1);
        assert(next.drop_last() =~= pairs(members@).take(i as int));
        assert(next.last() == (members@[i as int].0@, members@[i as int].1@));
        let name = to_chars(members[i].0.as_str());
        if !chars_eq(&name, &wanted) {
            out.push((members[i].0.clone(), members[i].1.clone()));
            assert(pairs(out@) =~= before.push(next.last()));
        }
        i += 1;
    }
    assert(pairs(members@).take(members.len() as int) =~= pairs(members@));
    let ghost before = pairs(out@);
    out.push((from_chars(&wanted), value));
    assert(pairs(out@) =~= before.push((key@, value@)));
    out
}

/// The JSON text of the object with the given members.
pub fn render_object(members: &Vec<(String, String)>) -> (r: String)
    ensures
        r@ == object_text(pairs(members@)),
{
    let mut texts: Vec<Vec<char>> = Vec::new();
    let mut i: usize = 0;
    while i < members.len()
        invariant
            i <= members.len(),
            texts.len() == i,
            forall|j: int|
                0 <= j < i ==> (#[trigger] texts@[j])@ == member_text(pairs(members@)[j]),
        decreases members.len() - i,
    {
        assert(pairs(members@)[i as int] == (members@[i as int].0@, members@[i as int].1@));
        let mut text = to_chars(json_quote(members[i].0.as_str()).as_str());
        text.push(':');
        let value = to_chars(members[i].1.as_str());
        append_chars(&mut text, &value);
        texts.push(text);
        i += 1;
    }
    assert(views(texts@) =~= pairs(members@).map_values(
        |m: (Seq<char>, Seq<char>)| member_text(m),
    ));
    let mut out: Vec<char> = Vec::new();
    out.push('{');
    let body = join(&texts, ',');
    append_chars(&mut out, &body);
    out.push('}');
    assert(out@ =~= object_text(pairs(members@)));
    from_chars(&out)
}

/// The bindings read from the members of the `textures` object.
pub fn read_table(members: &Vec<(String, String)>) -> (r: Option<Vec<ManifestEntry>>)
    ensures
        match r {
            Some(t) => string_table(pairs(members@)) == Some(bindings(t@)),
            None => string_table(pairs(members@)) is None,
        },
{
    let mut out: Vec<ManifestEntry> = Vec::new();
    let mut i: usize = 0;
    while i < members.len()
        invariant
            i <= members.len(),
            out.len() == i,
            forall|j: int| 0 <= j < i ==> string_value(#[trigger] pairs(members@)[j].1) is Some,
            forall|j: int|
                0 <= j < i ==> (#[trigger] out@[j])@ == (
                    pairs(members@)[j].0,
                    string_value(pairs(members@)[j].1).unwrap(),
                ),
        decreases members.len() - i,
    {
        assert(pairs(members@)[i as int] == (members@[i as int].0@, members@[i as int].1@));
        match json_string(members[i].1.as_str()) {
            Ok(s) => {
                out.push(ManifestEntry { uniform_name: members[i].0.clone(), relative_path: s });
            },
            Err(_) => {
                assert(!(string_value(pairs(members@)[i as int].1) is Some));
                return None;
            },
        }
        i += 1;
    }
    assert(bindings(out@) =~= pairs(members@).map_values(
        |m: (Seq<char>, Seq<char>)| (m.0, string_value(m.1).unwrap()),
    ));
    Some(out)
}

/// The members that a table of bindings gives the `textures` object.
pub fn write_table(table: &Vec<ManifestEntry>) -> (r: Vec<(String, String)>)
    ensures
        pairs(r@) == table_members(bindings(table@)),
{
    let mut out: Vec<(String, String)> = Vec::new();
    let mut i: usize = 0;
    while i < table.len()
        invariant
            i <= table.len(),
            out.len() == i,
            forall|j: int|
                0 <= j < i ==> ((#[trigger] out@[j]).0@, out@[j].1@) == (
                    bindings(table@)[j].0,
                    quoted(bindings(table@)[j].1),
                ),
        decreases table.len() - i,
    {
        assert(bindings(table@)[i as int] == table@[i as int]@);
        out.push(
            (table[i].uniform_name.clone(), json_quote(table[i].relative_path.as_str())),
        );
        i += 1;
    }
    assert(pairs(out@) =~= table_members(bindings(table@)));
    out
}

/// The bindings that the manifest text `config` declares. The text may hold
/// `//` comments at the ends of its lines.
pub fn parse_manifest(config: &str) -> (r: Result<Vec<ManifestEntry>, TextureError>)
    ensures
        match manifest_table(config@) {
            Some(t) => r matches Ok(m) && bindings(m@) == t,
            None => r == Err::<Vec<ManifestEntry>, TextureError>(TextureError::ConfigParseError),
        },
{
    let clean = strip_comments(config);
    let members = match json_members(clean.as_str()) {
        Ok(ms) => ms,
        Err(_) => {
            return Err(TextureError::ConfigParseError);
        },
    };
    let textures = match find_member(&members, "textures") {
        Some(t) => t,
        None => {
            return Err(TextureError::ConfigParseError);
        },
    };
    let table = match json_members(textures.as_str()) {
        Ok(t) => t,
        Err(_) => {
            return Err(TextureError::ConfigParseError);
        },
    };
    match read_table(&table) {
        Some(t) => Ok(t),
        None => Err(TextureError::ConfigParseError),
    }
}

/// The bindings that the manifest file declares, `config` being the text of
/// the file, or `None` where the file is absent.
pub fn load_manifest(config: Option<&str>) -> (r: Result<Vec<ManifestEntry>, TextureError>)
    ensures
        match config {
            None => r == Err::<Vec<ManifestEntry>, TextureError>(TextureError::ConfigNotFound),
            Some(text) => match manifest_table(text@) {
                Some(t) => r matches Ok(m) && bindings(m@) == t,
                None => r == Err::<Vec<ManifestEntry>, TextureError>(
                    TextureError::ConfigParseError,
                ),
            },
        },
{
    match config {
        Some(text) => parse_manifest(text),
        None => Err(TextureError::ConfigNotFound),
    }
}

/// The text of the manifest file after a write-back: `config` with its
/// `textures` member replaced by `table`, every other member kept, written
/// as indented JSON without comments.
pub fn rewrite_manifest(config: &str, table: &Vec<ManifestEntry>) -> (r: Result<
    String,
    TextureError,
>)
    ensures
        match rewritten(config@, bindings(table@)) {
            Some(t) => r matches Ok(s) && s@ == t,
            None => r == Err::<String, TextureError>(TextureError::ConfigParseError),
        },
{
    let clean = strip_comments(config);
    let members = match json_members(clean.as_str()) {
        Ok(ms) => ms,
        Err(_) => {
            return Err(TextureError::ConfigParseError);
        },
    };
    let textures = render_object(&write_table(table));
    let document = render_object(&set_member(&members, "textures", textures));
    match json_pretty(document.as_str()) {
        Ok(s) => Ok(s),
        Err(_) => Err(TextureError::ConfigParseError),
    }
}

impl BonzomaticTextureManagerApp {
    /// Replaces the catalog by the one reconciled from the manifest text
    /// `config` (`None` where the file is absent) and the file names
    /// `listing` of the texture directory (`None` where the directory is
    /// absent). Without a texture directory the catalog becomes empty. Where
    /// the manifest cannot be read the catalog stays as it was.
    pub fn update_texture_list(&mut self, config: Option<&str>, listing: Option<&Vec<String>>) -> (r:
        Result<(), TextureError>)
        ensures
            final(self).bonzomatic_dir == old(self).bonzomatic_dir,
            final(self).changed == old(self).changed,
            final(self).backup_checked == old(self).backup_checked,
            match listing {
                None => r is Ok && final(self).catalog() == Seq::<TextureView>::empty(),
                Some(l) => match config {
                    None => r == Err::<(), TextureError>(TextureError::ConfigNotFound),
                    Some(text) => match manifest_table(text@) {
                        Some(t) => r is Ok && final(self).catalog() == reconciled(
                            t,
                            file_names(l@),
                        ),
                        None => r == Err::<(), TextureError>(TextureError::ConfigParseError),
                    },
                },
            },
            r is Err ==> final(self).local_textures == old(self).local_textures,
    {
        if listing.is_none() {
            let empty: Vec<ManifestEntry> = Vec::new();
            self.reconcile_with(&empty, None);
            return Ok(());
        }
        match load_manifest(config) {
            Ok(manifest) => {
                self.reconcile_with(&manifest, listing);
                Ok(())
            },
            Err(e) => Err(e),
        }
    }

    /// Whether a write-back is due: whether the catalog was edited since the
    /// last one. The edits then count as taken up.
    pub fn begin_write_back(&mut self) -> (due: bool)
        ensures
            due == old(self).changed,
            !final(self).changed,
            final(self).bonzomatic_dir == old(self).bonzomatic_dir,
            final(self).local_textures == old(self).local_textures,
            final(self).backup_checked == old(self).backup_checked,
    {
        let due = self.changed;
        self.changed = false;
        due
    }

    /// Whether the manifest file has to be copied to its backup before it is
    /// written: only before the first write of a session, and only where no
    /// backup exists yet. The session then counts the backup as seen to.
    pub fn config_backup(&mut self, backup_exists: bool) -> (copy: bool)
        ensures
            copy == (!old(self).backup_checked && !backup_exists),
            final(self).backup_checked,
            final(self).bonzomatic_dir == old(self).bonzomatic_dir,
            final(self).local_textures == old(self).local_textures,
            final(self).changed == old(self).changed,
    {
        let copy = !self.backup_checked && !backup_exists;
        self.backup_checked = true;
        copy
    }

    /// The text to write to the manifest file: `config`, the present text of
    /// the file (`None` where it is absent), with its `textures` member
    /// replaced by the bindings of the active entries.
    pub fn write_config_json(&self, config: Option<&str>) -> (r: Result<String, TextureError>)
        ensures
            match config {
                None => r == Err::<String, TextureError>(TextureError::ConfigNotFound),
                Some(text) => match rewritten(text@, active_table(self.catalog())) {
                    Some(t) => r matches Ok(s) && s@ == t,
                    None => r == Err::<String, TextureError>(TextureError::ConfigParseError),
                },
            },
    {
        match config {
            Some(text) => rewrite_manifest(text, &self.active_entries()),
            None => Err(TextureError::ConfigNotFound),
        }
    }
}

} // verus!
