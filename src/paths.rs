use vstd::prelude::*;

verus! {

/// The path that `std::path::Path::join` makes of `base` and `rel` on Unix: an
/// absolute `rel` replaces `base`; otherwise `rel` is appended, after a `/` when
/// `base` is not empty and does not end with one.
pub open spec fn joined(base: Seq<char>, rel: Seq<char>) -> Seq<char> {
    if rel.len() > 0 && rel[0] == '/' {
        rel
    } else if base.len() == 0 || base.last() == '/' {
        base + rel
    } else {
        base + seq!['/'] + rel
    }
}

/// Whether the text holds no path separator: no `/`, and no backslash (the separator of Windows).
pub open spec fn single_component(path: Seq<char>) -> bool {
    forall|j: int| 0 <= j < path.len() ==> path[j] != '/' && path[j] != '\\'
}

/// The extension that `std::path::Path::extension` finds in `path`, if any.
pub uninterp spec fn extension_of(path: Seq<char>) -> Option<Seq<char>>;

/// Relies on `Path::join` (Unix rules): `rel` adjoined to `base` (a path of UTF-8
/// parts stays UTF-8).
#[verifier::external_body]
pub fn join_path(base: &str, rel: &str) -> (r: String)
    ensures
        r@ == joined(base@, rel@),
{
    std::path::Path::new(base).join(rel).to_string_lossy().into_owned()
}

/// Whether `path` is one file name `stem.ext` whose last dot is at `d`, with a
/// non-empty stem and a non-empty extension.
pub open spec fn last_dot_at(path: Seq<char>, d: int) -> bool {
    &&& single_component(path)
    &&& 0 < d < path.len() - 1
    &&& path[d] == '.'
    &&& forall|j: int| d < j < path.len() ==> path[j] != '.'
}

/// Whether the text holds no dot.
pub open spec fn no_dot(path: Seq<char>) -> bool {
    forall|j: int| 0 <= j < path.len() ==> path[j] != '.'
}

/// The text of an optional string.
pub open spec fn text_of(o: Option<String>) -> Option<Seq<char>> {
    match o {
        Some(s) => Some(s@),
        None => None,
    }
}

/// Relies on `Path::extension`: the part of the file name after its last dot, if
/// any. As its documentation says, a file name without a dot has none, and a name
/// `stem.ext` with a non-empty stem has `ext`.
#[verifier::external_body]
pub fn path_extension(path: &str) -> (r: Option<String>)
    ensures
        text_of(r) == extension_of(path@),
        single_component(path@) && no_dot(path@) ==> r is None,
        forall|d: int| #[trigger]
            last_dot_at(path@, d) ==> text_of(r) == Some(path@.subrange(d + 1, path@.len() as int)),
{
    match std::path::Path::new(path).extension() {
        Some(e) => Some(e.to_string_lossy().into_owned()),
        None => None,
    }
}

/// Whether the file name of `path` has an extension.
pub fn has_extension(path: &str) -> (r: bool)
    ensures
        r == extension_of(path@) is Some,
{
    path_extension(path).is_some()
}

/// Whether the file name of `path` has the extension `js`.
pub fn is_script_file(path: &str) -> (r: bool)
    ensures
        r == (extension_of(path@) == Some("js"@)),
{
    match path_extension(path) {
        Some(e) => e == String::from_str("js"),
        None => false,
    }
}

/// Whether `a` comes before `b` or equals it, comparing characters by code point.
pub open spec fn lex_le(a: Seq<char>, b: Seq<char>) -> bool
    decreases a.len(),
{
    if a.len() == 0 {
        true
    } else if b.len() == 0 {
        false
    } else if a[0] != b[0] {
        (a[0] as u32) < (b[0] as u32)
    } else {
        lex_le(a.drop_first(), b.drop_first())
    }
}

/// Whether `v` is in ascending order.
pub open spec fn sorted_text(v: Seq<Seq<char>>) -> bool {
    forall|i: int, j: int| 0 <= i < j < v.len() ==> lex_le(#[trigger] v[i], #[trigger] v[j])
}

/// The texts of a vector of strings.
pub open spec fn texts(v: Seq<String>) -> Seq<Seq<char>> {
    v.map_values(|s: String| s@)
}

/// Relies on `slice::sort` over `String`, whose order compares bytes; on UTF-8
/// text that is the order of code points.
#[verifier::external_body]
fn sort_strings(v: &mut Vec<String>)
    ensures
        texts(final(v)@).to_multiset() == texts(old(v)@).to_multiset(),
        sorted_text(texts(final(v)@)),
{
    v.sort()
}

/// The paths among `v` whose extension is `js`, in their order.
pub open spec fn script_paths(v: Seq<Seq<char>>) -> Seq<Seq<char>>
    decreases v.len(),
{
    if v.len() == 0 {
        Seq::empty()
    } else if extension_of(v.last()) == Some("js"@) {
        script_paths(v.drop_last()).push(v.last())
    } else {
        script_paths(v.drop_last())
    }
}

/// The bootstrap scripts among the entries of a module directory, in ascending order.
pub fn bootstrap_scripts(entries: Vec<String>) -> (r: Vec<String>)
    ensures
        texts(r@).to_multiset() == script_paths(texts(entries@)).to_multiset(),
        sorted_text(texts(r@)),
{
    let mut r: Vec<String> = Vec::new();
    let mut i: usize = 0;
    while i < entries.len()
        invariant
            i <= entries@.len(),
            texts(r@) == script_paths(texts(entries@.take(i as int))),
        decreases entries@.len() - i,
    {
        assert(texts(entries@.take(i + 1)).drop_last() =~= texts(entries@.take(i as int)));
        assert(texts(entries@.take(i + 1)).last() == entries@[i as int]@);
        if is_script_file(entries[i].as_str()) {
            let ghost before = r@;
            r.push(entries[i].clone());
            assert(texts(r@) =~= texts(before).push(entries@[i as int]@));
        }
        i += 1;
    }
    assert(entries@.take(entries@.len() as int) =~= entries@);
    sort_strings(&mut r);
    r
}

} // verus!
