//! File paths as text.
//!
//! How a path is taken apart and put together is up to `std::path` and so to the platform that the
//! library is built for; what it gives for a path is a function of the path's text.
use std::path::Path;
use vstd::prelude::*;
use vstd::string::*;

verus! {

/// What `Path::join` makes of `base` and `path`.
pub uninterp spec fn joined_path(base: Seq<char>, path: Seq<char>) -> Seq<char>;

/// What `Path::parent` gives for `path`.
pub uninterp spec fn parent_path(path: Seq<char>) -> Option<Seq<char>>;

/// What `Path::file_name` gives for `path`.
pub uninterp spec fn final_name(path: Seq<char>) -> Option<Seq<char>>;

/// What `Path::components` gives for `path`, each component as its bytes.
pub uninterp spec fn components_of(path: Seq<char>) -> Seq<Seq<u8>>;

/// Trusted: `Path::join` puts `path` behind `base`, or in its place where `path` is absolute.
#[verifier::external_body]
fn join(base: &str, path: &str) -> (r: String)
    ensures
        r@ == joined_path(base@, path@),
{
    Path::new(base).join(path).to_string_lossy().into_owned()
}

/// Trusted: `Path::parent` gives the path without its final component, if there is one.
#[verifier::external_body]
fn parent(path: &str) -> (r: Option<String>)
    ensures
        r is Some <==> parent_path(path@) is Some,
        r matches Some(p) ==> p@ == parent_path(path@)->0,
{
    Path::new(path).parent().map(|p| p.to_string_lossy().into_owned())
}

/// Trusted: `Path::file_name` gives the final component of a path, if it is a normal one.
#[verifier::external_body]
fn file_name(path: &str) -> (r: Option<String>)
    ensures
        r is Some <==> final_name(path@) is Some,
        r matches Some(n) ==> n@ == final_name(path@)->0,
{
    Path::new(path).file_name().map(|n| n.to_string_lossy().into_owned())
}

/// Trusted: `Path::components` takes a path apart into its components.
#[verifier::external_body]
pub(crate) fn components(path: &str) -> (r: Vec<Vec<u8>>)
    ensures
        parts_of(r@) == components_of(path@),
{
    Path::new(path).components().map(|c| c.as_os_str().as_encoded_bytes().to_vec()).collect()
}

/// The components of a path, each as its bytes.
pub open spec fn parts_of(parts: Seq<Vec<u8>>) -> Seq<Seq<u8>> {
    parts.map_values(|p: Vec<u8>| p@)
}

/// Where `c` last stands in `s`, or -1 when it stands nowhere.
pub open spec fn last_index(s: Seq<char>, c: char) -> int
    decreases s.len(),
{
    if s.len() == 0 {
        -1
    } else if s.last() == c {
        s.len() - 1
    } else {
        last_index(s.drop_last(), c)
    }
}

/// The extension in a file name: what follows its last dot, unless that dot is also its first
/// character.
pub open spec fn extension_in(name: Seq<char>) -> Option<Seq<char>> {
    if last_index(name, '.') > 0 {
        Some(name.skip(last_index(name, '.') + 1))
    } else {
        None
    }
}

/// The extension of a path: that of its final name.
pub open spec fn extension_of(path: Seq<char>) -> Option<Seq<char>> {
    match final_name(path) {
        Some(name) => extension_in(name),
        None => None,
    }
}

/// The text, or no text where there is none.
pub open spec fn or_empty(text: Option<Seq<char>>) -> Seq<char> {
    match text {
        Some(t) => t,
        None => seq![],
    }
}

/// The extension in a file name.
pub fn name_extension(name: &str) -> (r: Option<String>)
    ensures
        r is Some <==> extension_in(name@) is Some,
        r matches Some(e) ==> e@ == extension_in(name@)->0,
{
    let n: usize = name.unicode_len();
    let mut i: usize = n;
    assert(name@.take(n as int) == name@);
    while i > 0 && name.get_char(i - 1) != '.'
        invariant
            i <= n == name@.len(),
            last_index(name@, '.') == last_index(name@.take(i as int), '.'),
        decreases i,
    {
        assert(name@.take(i as int).last() == name@[i - 1]);
        assert(name@.take(i as int).drop_last() == name@.take(i - 1));
        i = i - 1;
    }
    if i > 0 {
        assert(name@.take(i as int).last() == name@[i - 1]);
        assert(last_index(name@, '.') == i - 1);
    }
    if i > 1 {
        let e = name.substring_char(i, n).to_owned();
        assert(e@ == name@.skip(i as int));
        Some(e)
    } else {
        None
    }
}

/// `path.join(base, path)`: the two put together.
pub fn path_join(base: &str, path: &str) -> (r: String)
    ensures
        r@ == joined_path(base@, path@),
{
    join(base, path)
}

/// `path.dirname(path)`: the parent, or no text without one.
pub fn path_dirname(path: &str) -> (r: String)
    ensures
        r@ == or_empty(parent_path(path@)),
{
    parent(path).unwrap_or_default()
}

/// `path.basename(path)`: the final name, or no text without one.
pub fn path_basename(path: &str) -> (r: String)
    ensures
        r@ == or_empty(final_name(path@)),
{
    file_name(path).unwrap_or_default()
}

/// `path.extname(path)`: the extension without its dot, or no text without one.
pub fn path_extname(path: &str) -> (r: String)
    ensures
        r@ == or_empty(extension_of(path@)),
{
    match file_name(path) {
        Some(name) => name_extension(name.as_str()).unwrap_or_default(),
        None => String::new(),
    }
}

fn same_bytes(a: &Vec<u8>, b: &Vec<u8>) -> (r: bool)
    ensures
        r == (a@ == b@),
{
    if a.len() != b.len() {
        return false;
    }
    let mut i: usize = 0;
    while i < a.len()
        invariant
            i <= a@.len() == b@.len(),
            forall|k: int| 0 <= k < i ==> a@[k] == b@[k],
        decreases a@.len() - i,
    {
        if a[i] != b[i] {
            return false;
        }
        i = i + 1;
    }
    assert(a@ =~= b@);
    true
}

/// Whether the path with the components `path` is `base` or stands below it.
pub fn is_within(path: &Vec<Vec<u8>>, base: &Vec<Vec<u8>>) -> (r: bool)
    ensures
        r == parts_of(base@).is_prefix_of(parts_of(path@)),
{
    if path.len() < base.len() {
        return false;
    }
    let mut i: usize = 0;
    while i < base.len()
        invariant
            i <= base@.len() <= path@.len(),
            forall|k: int| 0 <= k < i ==> #[trigger] base@[k]@ == path@[k]@,
        decreases base@.len() - i,
    {
        if !same_bytes(&path[i], &base[i]) {
            proof {
                let head = parts_of(path@).subrange(0, base@.len() as int);
                assert(head[i as int] == path@[i as int]@);
                assert(parts_of(base@)[i as int] == base@[i as int]@);
            }
            return false;
        }
        i = i + 1;
    }
    assert(parts_of(base@) =~= parts_of(path@).subrange(0, base@.len() as int));
    true
}

/// The components of a path are the components one by one.
pub proof fn law_parts_are_the_components(parts: Seq<Vec<u8>>)
    ensures
        parts_of(parts).len() == parts.len(),
        forall|i: int| 0 <= i < parts.len() ==> #[trigger] parts_of(parts)[i] == parts[i]@,
{
}

proof fn lemma_last_index_of(s: Seq<char>, c: char, k: int)
    requires
        0 <= k < s.len(),
        s[k] == c,
        forall|i: int| k < i < s.len() ==> #[trigger] s[i] != c,
    ensures
        last_index(s, c) == k,
    decreases s.len(),
{
    if k < s.len() - 1 {
        let front = s.drop_last();
        assert(s[s.len() - 1] != c);
        assert forall|i: int| k < i < front.len() implies #[trigger] front[i] != c by {
            assert(front[i] == s[i]);
        }
        lemma_last_index_of(front, c, k);
    }
}

proof fn lemma_no_last_index(s: Seq<char>, c: char)
    requires
        !s.contains(c),
    ensures
        last_index(s, c) == -1,
    decreases s.len(),
{
    if s.len() > 0 {
        assert(s.contains(s[s.len() - 1]));
        let front = s.drop_last();
        if front.contains(c) {
            let i = choose|i: int| 0 <= i < front.len() && front[i] == c;
            assert(s[i] == c);
        }
        lemma_no_last_index(front, c);
    }
}

/// The extension is what stands behind the last dot of a name, whatever stands before it, unless
/// nothing does.
pub proof fn law_extension_stands_behind_the_last_dot(stem: Seq<char>, extension: Seq<char>)
    requires
        stem.len() > 0,
        !extension.contains('.'),
    ensures
        extension_in(stem + seq!['.'] + extension) == Some(extension),
        extension_in(seq!['.'] + extension) is None,
        extension_in(extension) is None,
{
    let name = stem + seq!['.'] + extension;
    let k = stem.len() as int;
    assert forall|i: int| k < i < name.len() implies #[trigger] name[i] != '.' by {
        assert(name[i] == extension[i - k - 1]);
        assert(extension.contains(extension[i - k - 1]));
    }
    assert(name[k] == '.');
    lemma_last_index_of(name, '.', k);
    assert(name.skip(k + 1) =~= extension);
    let hidden = seq!['.'] + extension;
    assert forall|i: int| 0 < i < hidden.len() implies #[trigger] hidden[i] != '.' by {
        assert(hidden[i] == extension[i - 1]);
        assert(extension.contains(extension[i - 1]));
    }
    assert(hidden[0] == '.');
    lemma_last_index_of(hidden, '.', 0);
    lemma_no_last_index(extension, '.');
}

/// The extension of a path is that of its final name, and a path without one has none.
pub proof fn law_extension_of_a_path(path: Seq<char>)
    ensures
        final_name(path) matches Some(name) ==> extension_of(path) == extension_in(name),
        final_name(path) is None ==> extension_of(path) is None,
        or_empty(None) == Seq::<char>::empty(),
        forall|text: Seq<char>| #[trigger] or_empty(Some(text)) == text,
{
}

} // verus!
