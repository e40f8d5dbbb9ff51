//! Names: the uniform name that a texture file is bound to by default, and a
//! file name that collides with no texture already in the catalog.

use crate::catalog::{entries, texture_path, BonzomaticTexture, TextureView};
use crate::path::{
    file_extension, file_extension_chars, file_stem, file_stem_chars, is_plain, lemma_separators,
    separators,
};
use crate::text::{
    append_chars, char_to_uppercase, decimal, decimal_chars, ends_with, free_of, from_chars, holds,
    last_of, lemma_decimal_is_digits, lemma_free_of_concat, lemma_last_of_bounds, lowercase_of,
    slice_chars, str_to_lowercase, to_chars, uppercase_of, views,
};
use vstd::prelude::*;

verus! {

/// `s` with its first character in upper case.
pub open spec fn capitalized(s: Seq<char>) -> Seq<char> {
    if s.len() == 0 {
        s
    } else {
        uppercase_of(s[0]) + s.skip(1)
    }
}

/// The uniform name derived from the stem of a file name: the prefix `tex`
/// and the capitalized stem.
pub open spec fn uniform_name_of(stem: Seq<char>) -> Seq<char> {
    "tex"@ + capitalized(stem)
}

/// The uniform name derived from a file name, whose extension does not
/// count.
pub open spec fn derived_name(file_name: Seq<char>) -> Seq<char> {
    uniform_name_of(file_stem(file_name))
}

/// The `k`-th name tried for a file called `name`: the name itself first,
/// then the stem followed by `_2`, `_3`, ... before the extension.
pub open spec fn candidate(name: Seq<char>, k: nat) -> Seq<char> {
    if k <= 1 {
        name
    } else {
        match file_extension(name) {
            Some(e) => file_stem(name) + seq!['_'] + decimal(k) + seq!['.'] + e,
            None => file_stem(name) + seq!['_'] + decimal(k),
        }
    }
}

/// Whether some texture of the catalog has a path that ends with `name`,
/// letter case apart.
pub open spec fn collides(catalog: Seq<TextureView>, name: Seq<char>) -> bool {
    exists|i: int|
        0 <= i < catalog.len() && lowercase_of(name).is_suffix_of(
            lowercase_of(#[trigger] catalog[i].path),
        )
}

/// Whether the file name `name` is in the way: some texture of the catalog
/// has a path that ends with it, letter case apart, or its path in the
/// texture directory is one of the paths `taken`.
pub open spec fn is_taken(catalog: Seq<TextureView>, taken: Seq<Seq<char>>, name: Seq<char>) -> bool {
    collides(catalog, name) || taken.contains(texture_path(name))
}

/// The least `j` from `k` up to `limit` whose candidate is not in the way.
pub open spec fn first_free(
    catalog: Seq<TextureView>,
    taken: Seq<Seq<char>>,
    name: Seq<char>,
    k: nat,
    limit: nat,
) -> Option<nat>
    decreases limit + 1 - k,
{
    if k > limit {
        None
    } else if !is_taken(catalog, taken, candidate(name, k)) {
        Some(k)
    } else {
        first_free(catalog, taken, name, k + 1, limit)
    }
}

/// The name under which a file called `name` enters the texture directory:
/// the first candidate that collides with nothing in the catalog and whose
/// path is none of the paths `taken`.
pub open spec fn free_name(catalog: Seq<TextureView>, taken: Seq<Seq<char>>, name: Seq<char>) -> Option<
    Seq<char>,
> {
    match first_free(catalog, taken, name, 1, u64::MAX as nat) {
        Some(k) => Some(candidate(name, k)),
        None => None,
    }
}

/// What `first_free` finds is not in the way, and every candidate before it
/// is.
pub proof fn lemma_first_free(
    catalog: Seq<TextureView>,
    taken: Seq<Seq<char>>,
    name: Seq<char>,
    k: nat,
    limit: nat,
)
    ensures
        match first_free(catalog, taken, name, k, limit) {
            Some(j) => k <= j <= limit && !is_taken(catalog, taken, candidate(name, j))
                && forall|i: nat| k <= i < j ==> is_taken(catalog, taken, candidate(name, i)),
            None => forall|i: nat|
                k <= i <= limit ==> is_taken(catalog, taken, candidate(name, i)),
        },
    decreases limit + 1 - k,
{
    if k <= limit && is_taken(catalog, taken, candidate(name, k)) {
        lemma_first_free(catalog, taken, name, k + 1, limit);
    }
}

/// Every name tried for a file name without separators and with an
/// extension of three characters or more is a plain component: it names a
/// file of the directory it is put in.
pub proof fn lemma_candidate_is_plain(name: Seq<char>, k: nat)
    requires
        free_of(name, separators()),
        file_extension(name) matches Some(e) && e.len() >= 3,
    ensures
        is_plain(candidate(name, k)),
{
    let dot = seq!['.'];
    lemma_last_of_bounds(name, dot);
    let d = last_of(name, dot);
    let e = file_extension(name).unwrap();
    let c = candidate(name, k);
    assert(seq!['.'].len() == 1 && seq!['.', '.'].len() == 2);
    if k >= 2 {
        let stem = file_stem(name);
        let digits = decimal(k);
        lemma_decimal_is_digits(k);
        assert(free_of(stem, separators())) by {
            assert forall|j: int| 0 <= j < stem.len() implies !separators().contains(
                #[trigger] stem[j],
            ) by {
                assert(stem[j] == name[j]);
            }
        }
        assert(free_of(e, separators())) by {
            assert forall|j: int| 0 <= j < e.len() implies !separators().contains(
                #[trigger] e[j],
            ) by {
                assert(e[j] == name[d + 1 + j]);
            }
        }
        assert(free_of(digits, separators())) by {
            assert forall|j: int| 0 <= j < digits.len() implies !separators().contains(
                #[trigger] digits[j],
            ) by {
                lemma_separators(digits[j]);
            }
        }
        assert(free_of(seq!['_'], separators())) by {
            lemma_separators('_');
        }
        assert(free_of(seq!['.'], separators())) by {
            lemma_separators('.');
        }
        lemma_free_of_concat(stem, seq!['_'], separators());
        lemma_free_of_concat(stem + seq!['_'], digits, separators());
        lemma_free_of_concat(stem + seq!['_'] + digits, seq!['.'], separators());
        lemma_free_of_concat(stem + seq!['_'] + digits + seq!['.'], e, separators());
        assert(c == stem + seq!['_'] + digits + seq!['.'] + e);
        assert(c.len() >= 5);
    } else {
        assert(c == name);
        assert(name.len() >= 5);
    }
}

/// `s` with its first character in upper case.
pub fn capitalize(s: &str) -> (r: String)
    ensures
        r@ == capitalized(s@),
{
    let chars = to_chars(s);
    from_chars(&capitalize_chars(&chars))
}

/// `s` with its first character in upper case.
pub fn capitalize_chars(s: &Vec<char>) -> (r: Vec<char>)
    ensures
        r@ == capitalized(s@),
{
    if s.len() == 0 {
        let r: Vec<char> = Vec::new();
        assert(r@ =~= s@);
        r
    } else {
        let mut r = char_to_uppercase(s[0]);
        let rest = slice_chars(s, 1, s.len());
        append_chars(&mut r, &rest);
        r
    }
}

/// The uniform name derived from the file name `file_name`.
pub fn derive_name_chars(file_name: &Vec<char>) -> (r: Vec<char>)
    ensures
        r@ == derived_name(file_name@),
{
    let stem = file_stem_chars(file_name);
    let mut r = to_chars("tex");
    let cap = capitalize_chars(&stem);
    append_chars(&mut r, &cap);
    r
}

/// The uniform name that a file called `file_name` is bound to by default.
pub fn derive_uniform_name(file_name: &str) -> (r: String)
    ensures
        r@ == derived_name(file_name@),
{
    let chars = to_chars(file_name);
    from_chars(&derive_name_chars(&chars))
}

/// The `k`-th name tried for a file called `name`.
pub fn candidate_chars(name: &Vec<char>, k: u64) -> (r: Vec<char>)
    ensures
        r@ == candidate(name@, k as nat),
{
    if k <= 1 {
        let r = slice_chars(name, 0, name.len());
        assert(r@ =~= name@);
        return r;
    }
    let mut r = file_stem_chars(name);
    r.push('_');
    let digits = decimal_chars(k);
    append_chars(&mut r, &digits);
    match file_extension_chars(name) {
        Some(e) => {
            r.push('.');
            append_chars(&mut r, &e);
            assert(r@ =~= file_stem(name@) + seq!['_'] + decimal(k as nat) + seq!['.'] + e@);
        },
        None => {
            assert(r@ =~= file_stem(name@) + seq!['_'] + decimal(k as nat));
        },
    }
    r
}

/// The paths of the catalog in lower case.
fn lowered_paths(catalog: &Vec<BonzomaticTexture>) -> (r: Vec<Vec<char>>)
    ensures
        r.len() == catalog.len(),
        forall|i: int| 0 <= i < r.len() ==> (#[trigger] r@[i])@ == lowercase_of(catalog@[i]@.path),
{
    let mut r: Vec<Vec<char>> = Vec::new();
    let mut i: usize = 0;
    while i < catalog.len()
        invariant
            i <= catalog.len(),
            r.len() == i,
            forall|j: int| 0 <= j < i ==> (#[trigger] r@[j])@ == lowercase_of(catalog@[j]@.path),
        decreases catalog.len() - i,
    {
        let low = str_to_lowercase(catalog[i].local_file.as_str());
        r.push(to_chars(low.as_str()));
        i += 1;
    }
    r
}

/// Whether one of the lower-case paths ends with the lower-case form of
/// `name`.
fn collides_with(
    catalog: &Vec<BonzomaticTexture>,
    lowered: &Vec<Vec<char>>,
    name: &Vec<char>,
) -> (r: bool)
    requires
        lowered.len() == catalog.len(),
        forall|i: int|
            0 <= i < lowered.len() ==> (#[trigger] lowered@[i])@ == lowercase_of(
                catalog@[i]@.path,
            ),
    ensures
        r == collides(entries(catalog@), name@),
{
    let text = from_chars(name);
    let low = to_chars(str_to_lowercase(text.as_str()).as_str());
    let mut i: usize = 0;
    while i < lowered.len()
        invariant
            i <= lowered.len(),
            lowered.len() == catalog.len(),
            low@ == lowercase_of(name@),
            forall|j: int|
                0 <= j < lowered.len() ==> (#[trigger] lowered@[j])@ == lowercase_of(
                    catalog@[j]@.path,
                ),
            forall|j: int|
                0 <= j < i ==> !lowercase_of(name@).is_suffix_of(
                    lowercase_of(#[trigger] entries(catalog@)[j].path),
                ),
        decreases lowered.len() - i,
    {
        assert(entries(catalog@)[i as int] == catalog@[i as int]@);
        if ends_with(&lowered[i], &low) {
            return true;
        }
        i += 1;
    }
    false
}

/// The name under which a file called `file_name` enters the texture
/// directory, where the paths `taken` are occupied: `file_name` itself
/// where it is not in the way, otherwise the first of the names with `_2`,
/// `_3`, ... before the extension that is not. A name is in the way where a
/// texture of the catalog has a path that ends with it, letter case apart,
/// or where its path in the texture directory is one of `taken`. `None`
/// where every such name up to the greatest number is in the way.
pub fn free_file_name(file_name: &str, catalog: &Vec<BonzomaticTexture>, taken: &Vec<Vec<char>>) -> (r:
    Option<String>)
    ensures
        match r {
            Some(n) => free_name(entries(catalog@), views(taken@), file_name@) == Some(n@)
                && !is_taken(entries(catalog@), views(taken@), n@),
            None => free_name(entries(catalog@), views(taken@), file_name@) is None,
        },
{
    let name = to_chars(file_name);
    let lowered = lowered_paths(catalog);
    let mut k: u64 = 1;
    loop
        invariant
            1 <= k <= u64::MAX,
            name@ == file_name@,
            lowered.len() == catalog.len(),
            forall|i: int|
                0 <= i < lowered.len() ==> (#[trigger] lowered@[i])@ == lowercase_of(
                    catalog@[i]@.path,
                ),
            first_free(entries(catalog@), views(taken@), name@, 1, u64::MAX as nat) == first_free(
                entries(catalog@),
                views(taken@),
                name@,
                k as nat,
                u64::MAX as nat,
            ),
        decreases u64::MAX - k,
    {
        let cand = candidate_chars(&name, k);
        let mut path = to_chars("textures/");
        append_chars(&mut path, &cand);
        if !collides_with(catalog, &lowered, &cand) && !holds(taken, &path) {
            return Some(from_chars(&cand));
        }
        if k == u64::MAX {
            assert(first_free(
                entries(catalog@),
                views(taken@),
                name@,
                (k + 1) as nat,
                u64::MAX as nat,
            ) is None);
            return None;
        }
        k += 1;
    }
}

/// The name under which a file called `file_name` enters the texture
/// directory: `file_name` itself where no texture of the catalog has a path
/// that ends with it, letter case apart; otherwise the first of the names
/// with `_2`, `_3`, ... before the extension of which that holds. `None`
/// where every such name up to the greatest number is taken.
pub fn unique_file_name(file_name: &str, catalog: &Vec<BonzomaticTexture>) -> (r: Option<String>)
    ensures
        match r {
            Some(n) => free_name(entries(catalog@), Seq::empty(), file_name@) == Some(n@)
                && !collides(entries(catalog@), n@),
            None => free_name(entries(catalog@), Seq::empty(), file_name@) is None,
        },
{
    let none: Vec<Vec<char>> = Vec::new();
    assert(views(none@) =~= Seq::<Seq<char>>::empty());
    free_file_name(file_name, catalog, &none)
}

} // verus!
