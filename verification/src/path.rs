//! Project-relative paths as character sequences: their components, whether
//! they stay inside the project root, their normal form, and the parts of a
//! file name.

use crate::text::{
    append_chars, first_of, free_of, from_chars, join, joined, last_index_of, last_of,
    lemma_last_of_bounds, lemma_pieces_free, lemma_pieces_joined, pieces, slice_chars, split,
    to_chars, views,
};
use vstd::prelude::*;

verus! {

/// The characters that part the components of a path. The backslash counts,
/// so that a name written on another platform cannot slip through.
pub open spec fn separators() -> Seq<char> {
    seq!['/', '\\']
}

/// Whether `c` parts two components of a path.
pub open spec fn is_separator(c: char) -> bool {
    c == '/' || c == '\\'
}

/// Whether `c` is an ASCII letter.
pub open spec fn is_ascii_letter(c: char) -> bool {
    ('a' <= c && c <= 'z') || ('A' <= c && c <= 'Z')
}

/// Whether `p` starts at a file system root or names a drive, rather than
/// being relative.
pub open spec fn is_rooted(p: Seq<char>) -> bool {
    ||| p.len() >= 1 && is_separator(p[0])
    ||| p.len() >= 2 && is_ascii_letter(p[0]) && p[1] == ':'
}

/// Walks `comps` from the directory that `stack` names: an empty component
/// or `.` stays, `..` goes up one directory, any other component goes down
/// into it. `None` where the walk would go above the directory it started
/// from with an empty stack.
pub open spec fn descend(stack: Seq<Seq<char>>, comps: Seq<Seq<char>>) -> Option<Seq<Seq<char>>>
    decreases comps.len(),
{
    if comps.len() == 0 {
        Some(stack)
    } else {
        let c = comps[0];
        let rest = comps.drop_first();
        if c.len() == 0 || c == seq!['.'] {
            descend(stack, rest)
        } else if c == seq!['.', '.'] {
            if stack.len() == 0 {
                None
            } else {
                descend(stack.drop_last(), rest)
            }
        } else {
            descend(stack.push(c), rest)
        }
    }
}

/// The components of the place that the relative path `p` names below the
/// project root; `None` where `p` is not relative or leaves the root on the
/// way.
pub open spec fn resolved(p: Seq<char>) -> Option<Seq<Seq<char>>> {
    if is_rooted(p) {
        None
    } else {
        descend(Seq::empty(), pieces(p, separators()))
    }
}

/// Whether `p` names a place inside the project root.
pub open spec fn is_contained(p: Seq<char>) -> bool {
    resolved(p) is Some
}

/// The path `p` without empty, `.` and `..` components, its components parted
/// by `/`; `None` where `p` is not inside the project root.
pub open spec fn normal_form(p: Seq<char>) -> Option<Seq<char>> {
    match resolved(p) {
        Some(cs) => Some(joined(cs, '/')),
        None => None,
    }
}

/// The path `rel` below the directory `root`.
pub open spec fn under_root(root: Seq<char>, rel: Seq<char>) -> Seq<char> {
    if rel.len() == 0 {
        root
    } else if root.len() == 0 || is_separator(root.last()) {
        root + rel
    } else {
        root + seq!['/'] + rel
    }
}

/// The last component of `p`: what follows its last separator.
pub open spec fn base_name(p: Seq<char>) -> Seq<char> {
    p.skip(last_of(p, separators()) + 1)
}

/// Where the stem of the file name `name` ends: at its last dot, unless that
/// dot leads the name or there is none.
pub open spec fn stem_end(name: Seq<char>) -> int {
    let d = last_of(name, seq!['.']);
    if d <= 0 {
        name.len() as int
    } else {
        d
    }
}

/// The file name without its extension.
pub open spec fn file_stem(name: Seq<char>) -> Seq<char> {
    name.take(stem_end(name))
}

/// The extension of the file name: what follows its last dot, unless that dot
/// leads the name or there is none.
pub open spec fn file_extension(name: Seq<char>) -> Option<Seq<char>> {
    let d = last_of(name, seq!['.']);
    if d <= 0 {
        None
    } else {
        Some(name.skip(d + 1))
    }
}

/// The separators are the slash and the backslash.
pub proof fn lemma_separators(c: char)
    ensures
        separators().contains(c) == is_separator(c),
{
    if is_separator(c) {
        assert(separators()[0] == '/' && separators()[1] == '\\');
    }
}

/// The last component of a path holds no separator.
pub proof fn lemma_base_name_is_free(p: Seq<char>)
    ensures
        free_of(base_name(p), separators()),
{
    lemma_last_of_bounds(p, separators());
    let k = last_of(p, separators());
    assert forall|j: int| 0 <= j < base_name(p).len() implies !separators().contains(
        #[trigger] base_name(p)[j],
    ) by {
        assert(base_name(p)[j] == p[k + 1 + j]);
    }
}

/// Whether `c` is a component that names a file or a directory: it is not
/// empty, neither `.` nor `..`, and holds no separator.
pub open spec fn is_plain(c: Seq<char>) -> bool {
    c.len() > 0 && c != seq!['.'] && c != seq!['.', '.'] && free_of(c, separators())
}

/// A walk that starts from plain components ends on plain components.
pub proof fn lemma_descend_is_plain(stack: Seq<Seq<char>>, comps: Seq<Seq<char>>)
    requires
        forall|i: int| 0 <= i < stack.len() ==> is_plain(#[trigger] stack[i]),
        forall|i: int| 0 <= i < comps.len() ==> free_of(#[trigger] comps[i], separators()),
    ensures
        descend(stack, comps) matches Some(r) ==> forall|i: int|
            0 <= i < r.len() ==> is_plain(#[trigger] r[i]),
    decreases comps.len(),
{
    if comps.len() > 0 {
        let c = comps[0];
        let rest = comps.drop_first();
        assert forall|i: int| 0 <= i < rest.len() implies free_of(
            #[trigger] rest[i],
            separators(),
        ) by {
            assert(rest[i] == comps[i + 1]);
        }
        if c.len() == 0 || c == seq!['.'] {
            lemma_descend_is_plain(stack, rest);
        } else if c == seq!['.', '.'] {
            if stack.len() > 0 {
                let up = stack.drop_last();
                assert forall|i: int| 0 <= i < up.len() implies is_plain(#[trigger] up[i]) by {
                    assert(up[i] == stack[i]);
                }
                lemma_descend_is_plain(up, rest);
            }
        } else {
            let down = stack.push(c);
            assert forall|i: int| 0 <= i < down.len() implies is_plain(#[trigger] down[i]) by {
                if i < stack.len() {
                    assert(down[i] == stack[i]);
                } else {
                    assert(down[i] == c);
                }
            }
            lemma_descend_is_plain(down, rest);
        }
    }
}

/// A walk over plain components goes down into each of them.
pub proof fn lemma_descend_plain(stack: Seq<Seq<char>>, comps: Seq<Seq<char>>)
    requires
        forall|i: int| 0 <= i < comps.len() ==> is_plain(#[trigger] comps[i]),
    ensures
        descend(stack, comps) == Some(stack + comps),
    decreases comps.len(),
{
    if comps.len() > 0 {
        let c = comps[0];
        let rest = comps.drop_first();
        assert(is_plain(c));
        assert forall|i: int| 0 <= i < rest.len() implies is_plain(#[trigger] rest[i]) by {
            assert(rest[i] == comps[i + 1]);
        }
        lemma_descend_plain(stack.push(c), rest);
        assert(stack.push(c) + rest =~= stack + comps);
    } else {
        assert(stack + comps =~= stack);
    }
}

/// The components of a resolved path are plain.
pub proof fn lemma_resolved_is_plain(p: Seq<char>)
    ensures
        resolved(p) matches Some(cs) ==> forall|i: int|
            0 <= i < cs.len() ==> is_plain(#[trigger] cs[i]),
{
    lemma_pieces_free(p, separators());
    lemma_descend_is_plain(Seq::empty(), pieces(p, separators()));
}

/// A normal form is its own normal form: normalizing changes nothing any
/// more. The normal form must not look like a drive, as that of `./C:/x`
/// does.
pub proof fn lemma_normal_form_is_fixed(p: Seq<char>)
    requires
        normal_form(p) is Some,
        !is_rooted(normal_form(p).unwrap()),
    ensures
        normal_form(normal_form(p).unwrap()) == normal_form(p),
{
    let cs = resolved(p).unwrap();
    let d = joined(cs, '/');
    lemma_resolved_is_plain(p);
    if cs.len() == 0 {
        assert(d.len() == 0);
        assert(first_of(d, separators()) == 0);
        assert(pieces(d, separators()) == seq![d]);
        let one = seq![d];
        assert(one.drop_first().len() == 0);
        assert(descend(Seq::empty(), one) == descend(Seq::empty(), one.drop_first()));
        assert(descend(Seq::<Seq<char>>::empty(), one.drop_first()) == Some(
            Seq::<Seq<char>>::empty(),
        ));
        assert(cs =~= Seq::<Seq<char>>::empty());
    } else {
        assert(separators()[0] == '/');
        assert forall|i: int| 0 <= i < cs.len() implies free_of(
            #[trigger] cs[i],
            separators(),
        ) by {
            assert(is_plain(cs[i]));
        }
        lemma_pieces_joined(cs, '/', separators());
        lemma_descend_plain(Seq::empty(), cs);
        assert(Seq::<Seq<char>>::empty() + cs =~= cs);
    }
}

fn separator_chars() -> (v: Vec<char>)
    ensures
        v@ == separators(),
{
    let mut v: Vec<char> = Vec::new();
    v.push('/');
    v.push('\\');
    assert(v@ =~= separators());
    v
}

fn dot_chars() -> (v: Vec<char>)
    ensures
        v@ == seq!['.'],
{
    let mut v: Vec<char> = Vec::new();
    v.push('.');
    assert(v@ =~= seq!['.']);
    v
}

/// Whether `p` starts at a file system root or names a drive.
pub fn rooted(p: &Vec<char>) -> (r: bool)
    ensures
        r == is_rooted(p@),
{
    if p.len() >= 1 && (p[0] == '/' || p[0] == '\\') {
        return true;
    }
    if p.len() >= 2 {
        let c = p[0];
        return (('a' <= c && c <= 'z') || ('A' <= c && c <= 'Z')) && p[1] == ':';
    }
    false
}

/// The components of the place that `p` names below the project root.
pub fn resolve(p: &Vec<char>) -> (r: Option<Vec<Vec<char>>>)
    ensures
        match r {
            Some(cs) => resolved(p@) == Some(views(cs@)),
            None => resolved(p@) is None,
        },
{
    if rooted(p) {
        return None;
    }
    let seps = separator_chars();
    let comps = split(p, &seps);
    let mut stack: Vec<Vec<char>> = Vec::new();
    let mut i: usize = 0;
    assert(views(comps@).skip(0) =~= views(comps@));
    assert(views(stack@) =~= Seq::<Seq<char>>::empty());
    while i < comps.len()
        invariant
            i <= comps.len(),
            !is_rooted(p@),
            views(comps@) == pieces(p@, separators()),
            descend(views(stack@), views(comps@).skip(i as int)) == descend(
                Seq::empty(),
                views(comps@),
            ),
        decreases comps.len() - i,
    {
        let c = &comps[i];
        let ghost rest = views(comps@).skip(i as int);
        assert(rest[0] == c@);
        assert(rest.drop_first() =~= views(comps@).skip(i + 1));
        if c.len() == 0 {
        } else if c.len() == 1 && c[0] == '.' {
            assert(c@ =~= seq!['.']);
        } else if c.len() == 2 && c[0] == '.' && c[1] == '.' {
            assert(c@ =~= seq!['.', '.']);
            if stack.len() == 0 {
                assert(views(stack@).len() == 0);
                assert(seq!['.'].len() == 1);
                assert(rest.len() > 0 && rest[0] == seq!['.', '.']);
                assert(descend(views(stack@), rest) is None);
                return None;
            }
            let ghost before = views(stack@);
            stack.pop();
            assert(views(stack@) =~= before.drop_last());
        } else {
            assert(c@ != seq!['.']) by {
                if c@ == seq!['.'] {
                    assert(c@.len() == 1 && c@[0] == '.');
                }
            }
            assert(c@ != seq!['.', '.']) by {
                if c@ == seq!['.', '.'] {
                    assert(c@.len() == 2 && c@[0] == '.' && c@[1] == '.');
                }
            }
            let ghost before = views(stack@);
            let copy = slice_chars(c, 0, c.len());
            assert(copy@ =~= c@);
            stack.push(copy);
            assert(views(stack@) =~= before.push(c@));
        }
        i += 1;
    }
    Some(stack)
}

/// The normal form of the path `p`, where it is inside the project root.
pub fn normalize_chars(p: &Vec<char>) -> (r: Option<Vec<char>>)
    ensures
        match r {
            Some(n) => normal_form(p@) == Some(n@),
            None => normal_form(p@) is None,
        },
{
    match resolve(p) {
        Some(cs) => Some(join(&cs, '/')),
        None => None,
    }
}

/// Whether `path` names a place inside the project root.
pub fn contained(path: &str) -> (r: bool)
    ensures
        r == is_contained(path@),
{
    let p = to_chars(path);
    resolve(&p).is_some()
}

/// The normal form of `path`, where it is inside the project root.
pub fn normalize(path: &str) -> (r: Option<String>)
    ensures
        match r {
            Some(n) => normal_form(path@) == Some(n@),
            None => normal_form(path@) is None,
        },
{
    let p = to_chars(path);
    match normalize_chars(&p) {
        Some(n) => Some(from_chars(&n)),
        None => None,
    }
}

/// The path `rel` below the directory `root`.
pub fn place_under(root: &Vec<char>, rel: &Vec<char>) -> (r: Vec<char>)
    ensures
        r@ == under_root(root@, rel@),
{
    let mut out = slice_chars(root, 0, root.len());
    assert(out@ =~= root@);
    if rel.len() == 0 {
        return out;
    }
    if root.len() > 0 {
        let last = root[root.len() - 1];
        if !(last == '/' || last == '\\') {
            out.push('/');
        }
    }
    append_chars(&mut out, rel);
    out
}

/// The last component of `p`.
pub fn base_name_chars(p: &Vec<char>) -> (r: Vec<char>)
    ensures
        r@ == base_name(p@),
{
    let seps = separator_chars();
    proof {
        lemma_last_of_bounds(p@, seps@);
    }
    match last_index_of(p, &seps) {
        Some(k) => {
            assert(k < p.len());
            slice_chars(p, k + 1, p.len())
        },
        None => slice_chars(p, 0, p.len()),
    }
}

/// The file name without its extension.
pub fn file_stem_chars(name: &Vec<char>) -> (r: Vec<char>)
    ensures
        r@ == file_stem(name@),
{
    let dot = dot_chars();
    proof {
        lemma_last_of_bounds(name@, dot@);
    }
    match last_index_of(name, &dot) {
        Some(k) => if k == 0 {
            slice_chars(name, 0, name.len())
        } else {
            slice_chars(name, 0, k)
        },
        None => slice_chars(name, 0, name.len()),
    }
}

/// The extension of the file name.
pub fn file_extension_chars(name: &Vec<char>) -> (r: Option<Vec<char>>)
    ensures
        match r {
            Some(e) => file_extension(name@) == Some(e@),
            None => file_extension(name@) is None,
        },
{
    let dot = dot_chars();
    proof {
        lemma_last_of_bounds(name@, dot@);
    }
    match last_index_of(name, &dot) {
        Some(k) => if k == 0 {
            None
        } else {
            assert(k < name.len());
            Some(slice_chars(name, k + 1, name.len()))
        },
        None => None,
    }
}

} // verus!
