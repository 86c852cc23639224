//! Where the files of a table are.

use vstd::prelude::*;

use object_store::path::Path;

use crate::text::{chars_of, halves, law_halves, law_pieces, pieces, split_once};

verus! {

/// A path in an object store.
#[verifier::external_type_specification]
#[verifier::external_body]
pub struct ExPath(object_store::path::Path);

/// The text of a path.
pub uninterp spec fn path_text_of(path: Path) -> Seq<char>;

/// Calls `as_ref` of `Path`. Claimed: the text of the path.
#[verifier::external_body]
fn path_text(path: &Path) -> (r: String)
    ensures
        r@ == path_text_of(*path),
{
    let text: &str = path.as_ref();
    text.to_string()
}

/// The segments of the text of a path: what stands between the slashes, where anything does.
pub open spec fn segments(text: Seq<char>) -> Seq<Seq<char>> {
    pieces(text, '/').filter(|p: Seq<char>| p.len() > 0)
}

/// Segments with a slash between each two.
pub open spec fn slashed(parts: Seq<Seq<char>>) -> Seq<char>
    decreases parts.len(),
{
    if parts.len() == 0 {
        Seq::empty()
    } else if parts.len() == 1 {
        parts[0]
    } else {
        slashed(parts.drop_last()) + "/"@ + parts.last()
    }
}

/// The text of a path below another: the segments of both.
pub open spec fn below(root: Seq<char>, path: Seq<char>) -> Seq<char> {
    slashed(segments(root) + segments(path))
}

/// Collects what `Path::parts` gives for two paths. Claimed: the path has the segments of the first
/// and then those of the second, without empty ones.
#[verifier::external_body]
fn join_paths(root: &Path, path: &Path) -> (r: Path)
    ensures
        path_text_of(r) == below(path_text_of(*root), path_text_of(*path)),
{
    root.parts().chain(path.parts()).collect()
}

/// Whether a character may stand in the scheme of a URI.
pub open spec fn scheme_char(c: char) -> bool {
    ('a' <= c && c <= 'z') || ('A' <= c && c <= 'Z') || ('0' <= c && c <= '9') || c == '+' || c
        == '-' || c == '.'
}

/// Whether a text begins as an absolute URI: a scheme, a colon and a slash.
pub open spec fn absolute_uri(path: Seq<char>) -> bool {
    match halves(path, ':') {
        Some((scheme, rest)) => {
            &&& scheme.len() > 0
            &&& forall|i: int| 0 <= i < scheme.len() ==> scheme_char(#[trigger] scheme[i])
            &&& rest.len() > 0
            &&& rest[0] == '/'
        },
        None => false,
    }
}

/// Whether a text begins as an absolute URI.
pub fn looks_like_absolute_uri(path: &str) -> (r: bool)
    ensures
        r == absolute_uri(path@),
{
    match split_once(path, ':') {
        Some((scheme, rest)) => {
            let scheme: Vec<char> = chars_of(scheme.as_str());
            let rest: Vec<char> = chars_of(rest.as_str());
            if scheme.len() == 0 || rest.len() == 0 || rest[0] != '/' {
                return false;
            }
            let mut i: usize = 0;
            while i < scheme.len()
                invariant
                    i <= scheme.len(),
                    halves(path@, ':') matches Some((s, _)) && s == scheme@,
                    forall|j: int| 0 <= j < i ==> scheme_char(#[trigger] scheme@[j]),
                decreases scheme.len() - i,
            {
                let c: char = scheme[i];
                if !(('a' <= c && c <= 'z') || ('A' <= c && c <= 'Z') || ('0' <= c && c <= '9') || c
                    == '+' || c == '-' || c == '.') {
                    assert(!scheme_char(scheme@[i as int]));
                    return false;
                }
                i = i + 1;
            }
            true
        },
        None => false,
    }
}

/// Where a file of a table is: an absolute URI stays, all else is below the table's root.
pub open spec fn file_location(root: Seq<char>, location: Seq<char>) -> Seq<char> {
    if absolute_uri(location) {
        location
    } else {
        below(root, location)
    }
}

/// Where a file of a table is.
pub fn rewrite_data_file_location(table_root: &Path, location: Path) -> (r: Path)
    ensures
        path_text_of(r) == file_location(path_text_of(*table_root), path_text_of(location)),
{
    let text: String = path_text(&location);
    if looks_like_absolute_uri(text.as_str()) {
        return location;
    }
    join_paths(table_root, &location)
}

proof fn lemma_slashed_concat(a: Seq<Seq<char>>, b: Seq<Seq<char>>)
    requires
        a.len() > 0,
        b.len() > 0,
    ensures
        slashed(a + b) == slashed(a) + "/"@ + slashed(b),
    decreases b.len(),
{
    assert((a + b).last() == b.last());
    assert((a + b).drop_last() =~= a + b.drop_last());
    if b.len() == 1 {
        assert(a + b.drop_last() =~= a);
    } else {
        lemma_slashed_concat(a, b.drop_last());
        assert(slashed(a) + "/"@ + slashed(b.drop_last()) + "/"@ + b.last() =~= slashed(a) + "/"@
            + slashed(b));
    }
}

/// Whether a path is written without empty segments: it is what its segments make.
pub open spec fn tidy(text: Seq<char>) -> bool {
    slashed(segments(text)) == text
}

/// Files with an absolute location stay where they are; all others come to lie below the root with
/// their own path at the end, where both are written without empty segments.
pub proof fn law_relative_files_lie_below_the_root(root: Seq<char>, location: Seq<char>)
    requires
        root.len() > 0,
        location.len() > 0,
        tidy(root),
        tidy(location),
    ensures
        absolute_uri(location) ==> file_location(root, location) == location,
        !absolute_uri(location) ==> file_location(root, location) == root + "/"@ + location,
{
    lemma_slashed_concat(segments(root), segments(location));
}

/// A text begins as an absolute URI where letters, digits, `+`, `-` and `.`, at least one of them,
/// stand before its first colon and a slash behind it; and nowhere else.
pub proof fn law_absolute_uris(path: Seq<char>, scheme: Seq<char>, rest: Seq<char>)
    ensures
        !path.contains(':') ==> !absolute_uri(path),
        path == scheme + seq![':'] + rest && !scheme.contains(':') ==> {
            &&& scheme.len() == 0 ==> !absolute_uri(path)
            &&& rest.len() == 0 || rest[0] != '/' ==> !absolute_uri(path)
            &&& (exists|i: int|
                0 <= i < scheme.len() && !(('a' <= #[trigger] scheme[i] && scheme[i] <= 'z') || (
                'A' <= scheme[i] && scheme[i] <= 'Z') || ('0' <= scheme[i] && scheme[i] <= '9')
                    || scheme[i] == '+' || scheme[i] == '-' || scheme[i] == '.'))
                ==> !absolute_uri(path)
            &&& scheme.len() > 0 && rest.len() > 0 && rest[0] == '/' && (forall|i: int|
                0 <= i < scheme.len() ==> ('a' <= #[trigger] scheme[i] && scheme[i] <= 'z') || ('A'
                    <= scheme[i] && scheme[i] <= 'Z') || ('0' <= scheme[i] && scheme[i] <= '9')
                    || scheme[i] == '+' || scheme[i] == '-' || scheme[i] == '.') ==> absolute_uri(
                path,
            )
        },
{
    law_halves(path, ':');
    if path == scheme + seq![':'] + rest && !scheme.contains(':') {
        let n = scheme.len() as int;
        assert(path[n] == ':');
        assert(path.contains(':'));
        let (first, second) = halves(path, ':')->0;
        let m = first.len() as int;
        assert(m == n) by {
            if m < n {
                assert(scheme[m] == path[m] && path[m] == ':');
            } else if n < m {
                assert(first[n] == path[n]);
            }
        }
        assert(first =~= scheme) by {
            assert forall|i: int| 0 <= i < n implies first[i] == scheme[i] by {
                assert(first[i] == path[i] && scheme[i] == path[i]);
            }
        }
        assert(second =~= rest) by {
            assert forall|i: int| 0 <= i < rest.len() implies second[i] == rest[i] by {
                assert(second[i] == path[n + 1 + i] && rest[i] == path[n + 1 + i]);
            }
        }
        if absolute_uri(path) {
            assert forall|i: int| 0 <= i < scheme.len() implies scheme_char(
                #[trigger] scheme[i],
            ) by {}
        }
        if forall|i: int|
            0 <= i < scheme.len() ==> ('a' <= #[trigger] scheme[i] && scheme[i] <= 'z') || ('A'
                <= scheme[i] && scheme[i] <= 'Z') || ('0' <= scheme[i] && scheme[i] <= '9')
                || scheme[i] == '+' || scheme[i] == '-' || scheme[i] == '.' {
            assert forall|i: int| 0 <= i < scheme.len() implies scheme_char(
                #[trigger] scheme[i],
            ) by {}
        }
    }
}

/// A path has the segments of what stands before a slash and then those of what stands behind it;
/// without a slash it is one segment, or none where it is empty.
pub proof fn law_segments(a: Seq<char>, b: Seq<char>)
    ensures
        segments(a + seq!['/'] + b) == segments(a) + segments(b),
        !a.contains('/') && a.len() > 0 ==> segments(a) == seq![a],
        a.len() == 0 ==> segments(a).len() == 0,
{
    let filled = |p: Seq<char>| p.len() > 0;
    law_pieces(a, b, '/');
    Seq::filter_distributes_over_add(pieces(a, '/'), pieces(b, '/'), filled);
    reveal_with_fuel(Seq::filter, 2);
    if !a.contains('/') {
        assert(pieces(a, '/') =~= seq![a]);
        assert(seq![a].drop_last() =~= Seq::<Seq<char>>::empty());
        assert(seq![a].last() == a);
        if a.len() > 0 {
            assert(seq![a].filter(filled) =~= seq![a]);
        }
    } else if a.len() == 0 {
        let i = choose|i: int| 0 <= i < a.len() && a[i] == '/';
    }
}

/// Where a file lies: an absolute location stays; for any other the segments of the root come
/// first and then those of the location, each with a slash before the next.
pub proof fn law_file_locations(root: Seq<char>, location: Seq<char>)
    ensures
        absolute_uri(location) ==> file_location(root, location) == location,
        !absolute_uri(location) ==> ({
            let parts = segments(root) + segments(location);
            &&& parts.len() == 0 ==> file_location(root, location).len() == 0
            &&& parts.len() == 1 ==> file_location(root, location) == parts[0]
            &&& parts.len() > 1 ==> file_location(root, location) == slashed(parts.drop_last())
                + "/"@ + parts.last()
        }),
        forall|a: Seq<Seq<char>>, b: Seq<Seq<char>>|
            a.len() > 0 && b.len() > 0 ==> #[trigger] slashed(a + b) == slashed(a) + "/"@ + slashed(
                b,
            ),
        forall|part: Seq<char>| #[trigger] slashed(seq![part]) == part,
{
    assert forall|a: Seq<Seq<char>>, b: Seq<Seq<char>>|
        a.len() > 0 && b.len() > 0 implies #[trigger] slashed(a + b) == slashed(a) + "/"@ + slashed(
        b,
    ) by {
        lemma_slashed_concat(a, b);
    }
}

} // verus!
