//! Flake references: which of them are local, and what they name.

use vstd::prelude::*;
use vstd::string::*;

use crate::error::ErrorChain;
use crate::text::{
    concat2, concat3, has_prefix, position, quote, quoted, same, segments, split, split_once,
    starts_with, strip_prefix, text_opt, texts,
};

verus! {

/// A reference without its fragment.
pub open spec fn without_fragment(reference: Seq<char>) -> Seq<char> {
    let p = position(reference, '#');
    if p < reference.len() {
        reference.take(p)
    } else {
        reference
    }
}

/// The fragment of a reference, with its mark; empty where there is none.
pub open spec fn fragment_of(reference: Seq<char>) -> Seq<char> {
    let p = position(reference, '#');
    if p < reference.len() {
        "#"@ + reference.skip(p + 1)
    } else {
        Seq::empty()
    }
}

/// A text without a prefix, where it has it.
pub open spec fn stripped(s: Seq<char>, prefix: Seq<char>) -> Seq<char> {
    if has_prefix(s, prefix) {
        s.skip(prefix.len() as int)
    } else {
        s
    }
}

fn strip<'a>(s: &'a str, prefix: &str) -> (r: &'a str)
    ensures
        r@ == stripped(s@, prefix@),
{
    match strip_prefix(s, prefix) {
        Some(rest) => rest,
        None => s,
    }
}

fn drop_fragment(reference: &str) -> (r: &str)
    ensures
        r@ == without_fragment(reference@),
{
    match split_once(reference, '#') {
        Some((path, _)) => path,
        None => reference,
    }
}

/// The directory of a local flake; `None` where the reference is not a local path.
pub open spec fn flake_root_of(reference: Seq<char>) -> Option<Seq<char>> {
    let path = stripped(without_fragment(reference), "path:"@);
    if path.len() == 0 {
        Some("."@)
    } else if path == "."@ || path == ".."@ || has_prefix(path, "/"@) || has_prefix(path, "./"@) {
        Some(path)
    } else {
        None
    }
}

/// The directory of a local flake.
pub fn local_flake_root(reference: &str) -> (r: Option<String>)
    ensures
        text_opt(r) == flake_root_of(reference@),
{
    let path = strip(drop_fragment(reference), "path:");
    if path.unicode_len() == 0 {
        return Some(".".to_owned());
    }
    if same(path, ".") || same(path, "..") || starts_with(path, "/") || starts_with(path, "./") {
        return Some(path.to_owned());
    }
    None
}

/// Whether a reference is locked as a local one: by its path before a fragment, without
/// `path:`; a reference without a fragment is taken as it stands.
pub open spec fn is_local(reference: Seq<char>) -> bool {
    let inner = stripped(reference, "path:"@);
    let path = if position(inner, '#') < inner.len() {
        inner.take(position(inner, '#'))
    } else {
        reference
    };
    ||| path.len() == 0
    ||| path == "."@
    ||| path == ".."@
    ||| has_prefix(path, "./"@)
    ||| has_prefix(path, "../"@)
    ||| has_prefix(path, "/"@)
}

/// Whether a reference is locked as a local one.
pub fn is_local_flake_reference(reference: &str) -> (r: bool)
    ensures
        r == is_local(reference@),
{
    let path = match split_once(strip(reference, "path:"), '#') {
        Some((path, _)) => path,
        None => reference,
    };
    path.unicode_len() == 0 || same(path, ".") || same(path, "..") || starts_with(path, "./")
        || starts_with(path, "../") || starts_with(path, "/")
}

/// How a flake is locked.
#[derive(Clone, Copy, PartialEq, Eq, Structural, Debug)]
pub enum LockMode {
    /// The lock file must be up to date.
    Check,
    /// The lock file is made in memory.
    Virtual,
}

/// How a flake is locked: a local one against its lock file.
pub fn flake_lock_mode(local_flake: bool) -> (r: LockMode)
    ensures
        r == if local_flake {
            LockMode::Check
        } else {
            LockMode::Virtual
        },
{
    if local_flake {
        LockMode::Check
    } else {
        LockMode::Virtual
    }
}

/// What a failure to lock is reported as.
pub fn lock_context(local_flake: bool) -> (r: &'static str)
    ensures
        r@ == if local_flake {
            "locking local flake with an up-to-date flake.lock"@
        } else {
            "locking flake"@
        },
{
    if local_flake {
        "locking local flake with an up-to-date flake.lock"
    } else {
        "locking flake"
    }
}

/// The path and the fragment of a reference; the fragment keeps its mark.
pub fn split_flake_fragment(reference: &str) -> (r: (&str, String))
    ensures
        r.0@ == without_fragment(reference@),
        r.1@ == fragment_of(reference@),
{
    match split_once(reference, '#') {
        Some((path, fragment)) => (path, concat2("#", fragment)),
        None => (reference, String::new()),
    }
}

/// Whether a path is relative to the current directory.
pub open spec fn is_relative(path: Seq<char>) -> bool {
    path.len() == 0 || path == "."@ || has_prefix(path, "./"@) || has_prefix(path, "../"@)
}

/// Whether a path is relative to the current directory.
pub fn is_relative_flake_path(path: &str) -> (r: bool)
    ensures
        r == is_relative(path@),
{
    path.unicode_len() == 0 || same(path, ".") || starts_with(path, "./") || starts_with(
        path,
        "../",
    )
}

/// The path and the fragment of a reference that a daemon can only follow once the path is
/// made canonical; `None` where the reference means the same everywhere.
pub open spec fn path_to_resolve(reference: Seq<char>) -> Option<(Seq<char>, Seq<char>)> {
    let inner = stripped(reference, "path:"@);
    let path = without_fragment(inner);
    if has_prefix(reference, "path:"@) || is_relative(path) || has_prefix(path, "/"@) {
        Some(
            (
                if path.len() == 0 {
                    "."@
                } else {
                    path
                },
                fragment_of(inner),
            ),
        )
    } else {
        None
    }
}

/// The path of a reference that is to be made canonical, and its fragment.
pub fn flake_path_to_resolve(reference: &str) -> (r: Option<(String, String)>)
    ensures
        path_to_resolve(reference@) == match r {
            Some(p) => Some((p.0@, p.1@)),
            None => None,
        },
{
    let (path, fragment) = split_flake_fragment(strip(reference, "path:"));
    if starts_with(reference, "path:") || is_relative_flake_path(path) || starts_with(path, "/") {
        let path = if path.unicode_len() == 0 {
            "."
        } else {
            path
        };
        Some((path.to_owned(), fragment))
    } else {
        None
    }
}

/// The reference that a daemon is given, where `canonical` is the canonical form of the path
/// that is to be resolved, or why there is none; a reference that means the same everywhere is
/// given as it is.
pub fn daemon_flake_ref(reference: &str, canonical: &Result<String, String>) -> (r: Result<
    String,
    ErrorChain,
>)
    ensures
        match path_to_resolve(reference@) {
            None => r matches Ok(s) && s@ == reference@,
            Some((path, fragment)) => match *canonical {
                Ok(c) => r matches Ok(s) && s@ == "path:"@ + c@ + fragment,
                Err(cause) => r matches Err(e) && e@ == seq![
                    "canonicalizing flake path "@ + quoted(path),
                    cause@,
                ],
            },
        },
{
    match flake_path_to_resolve(reference) {
        None => Ok(reference.to_owned()),
        Some((path, fragment)) => match canonical {
            Ok(c) => Ok(concat3("path:", c.as_str(), fragment.as_str())),
            Err(cause) => Err(
                ErrorChain::new(cause.as_str()).context(
                    concat2("canonicalizing flake path ", quote(path.as_str()).as_str()).as_str(),
                ),
            ),
        },
    }
}

/// The attributes that a fragment names, in order: none for an empty one.
pub open spec fn fragment_names(fragment: Seq<char>) -> Seq<Seq<char>> {
    if fragment.len() == 0 {
        Seq::empty()
    } else {
        segments(fragment, '.')
    }
}

/// The attributes that a fragment names.
pub fn fragment_parts(fragment: &str) -> (r: Vec<String>)
    ensures
        texts(r@) == fragment_names(fragment@),
{
    if fragment.unicode_len() == 0 {
        let none: Vec<String> = Vec::new();
        proof {
            assert(texts(none@) =~= Seq::<Seq<char>>::empty());
        }
        none
    } else {
        split(fragment, '.')
    }
}

/// What a failure at an attribute of a fragment is reported as: on taking it, or on calling it.
pub fn fragment_context(part: &str, calling: bool) -> (r: String)
    ensures
        r@ == if calling {
            "auto-calling fragment "@ + quoted(part@)
        } else {
            "fragment attr "@ + quoted(part@)
        },
{
    if calling {
        concat2("auto-calling fragment ", quote(part).as_str())
    } else {
        concat2("fragment attr ", quote(part).as_str())
    }
}

/// What a failure at an input override is reported as: on reading its reference, or on
/// applying it.
pub fn override_context(name: &str, value: &str, applying: bool) -> (r: String)
    ensures
        r@ == if applying {
            "applying --override-input "@ + name@
        } else {
            "parsing --override-input "@ + name@ + " reference "@ + quoted(value@)
        },
{
    if applying {
        concat2("applying --override-input ", name)
    } else {
        let mut out = concat3("parsing --override-input ", name, " reference ");
        out.append(quote(value).as_str());
        out
    }
}

/// A reference with a fragment is local by what stands before the fragment, `path:` or not.
pub proof fn law_local_fragment_refs(path: Seq<char>, fragment: Seq<char>)
    requires
        !path.contains('#'),
    ensures
        is_local(path + "#"@ + fragment) <==> {
            let p = stripped(path, "path:"@);
            p.len() == 0 || p == "."@ || p == ".."@ || has_prefix(p, "./"@) || has_prefix(p, "../"@)
                || has_prefix(p, "/"@)
        },
{
    reveal_strlit("#");
    reveal_strlit("path:");
    let whole = path + "#"@ + fragment;
    let inner = stripped(whole, "path:"@);
    let p = stripped(path, "path:"@);
    if has_prefix(path, "path:"@) {
        assert(whole.take(5) =~= path.take(5));
        assert(inner =~= p + "#"@ + fragment);
    } else {
        assert(!has_prefix(whole, "path:"@)) by {
            if has_prefix(whole, "path:"@) {
                assert(whole.take(5) == "path:"@);
                if path.len() >= 5 {
                    assert(whole.take(5) =~= path.take(5));
                } else {
                    let at = path.len() as int;
                    assert(whole[at] == '#');
                    assert(whole.take(5)[at] == whole[at]);
                    assert("path:"@[at] != '#');
                }
            }
        }
        assert(inner =~= p + "#"@ + fragment);
    }
    assert(inner[p.len() as int] == '#');
    assert forall|i: int| 0 <= i < p.len() implies inner[i] != '#' by {
        if has_prefix(path, "path:"@) {
            assert(inner[i] == path[i + 5]);
        } else {
            assert(inner[i] == path[i]);
        }
    }
    crate::text::lemma_position_unique(inner, '#', p.len() as int);
    assert(inner.take(p.len() as int) =~= p);
}

/// Whether a path is one that a flake is watched at: the current directory or its parent, or a
/// path that begins at the root or in the current directory.
pub open spec fn watchable(path: Seq<char>) -> bool {
    ||| path == seq!['.']
    ||| path == seq!['.', '.']
    ||| path.len() > 0 && path[0] == '/'
    ||| path.len() > 1 && path[0] == '.' && path[1] == '/'
}

proof fn lemma_path_forms(path: Seq<char>)
    ensures
        "."@ == seq!['.'],
        path == ".."@ <==> path == seq!['.', '.'],
        has_prefix(path, "/"@) <==> path.len() > 0 && path[0] == '/',
        has_prefix(path, "./"@) <==> path.len() > 1 && path[0] == '.' && path[1] == '/',
        has_prefix(path, "../"@) <==> path.len() > 2 && path[0] == '.' && path[1] == '.' && path[2]
            == '/',
{
    reveal_strlit(".");
    reveal_strlit("..");
    reveal_strlit("/");
    reveal_strlit("./");
    reveal_strlit("../");
    assert("."@ =~= seq!['.']);
    assert(".."@ =~= seq!['.', '.']);
    if has_prefix(path, "/"@) {
        assert(path.take(1)[0] == path[0]);
    }
    if has_prefix(path, "./"@) {
        assert(path.take(2)[0] == path[0] && path.take(2)[1] == path[1]);
    }
    if has_prefix(path, "../"@) {
        assert(path.take(3)[0] == path[0] && path.take(3)[1] == path[1] && path.take(3)[2]
            == path[2]);
    }
    if path.len() > 0 && path[0] == '/' {
        assert(path.take(1) =~= "/"@);
    }
    if path.len() > 1 && path[0] == '.' && path[1] == '/' {
        assert(path.take(2) =~= "./"@);
    }
    if path.len() > 2 && path[0] == '.' && path[1] == '.' && path[2] == '/' {
        assert(path.take(3) =~= "../"@);
    }
}

/// A reference is its path, the mark and its fragment, or its path alone: the path holds no
/// mark, and nothing is lost.
pub proof fn law_references_split_at_the_first_mark(path: Seq<char>, fragment: Seq<char>)
    requires
        !path.contains('#'),
    ensures
        without_fragment(path) == path,
        fragment_of(path).len() == 0,
        without_fragment(path + seq!['#'] + fragment) == path,
        fragment_of(path + seq!['#'] + fragment) == seq!['#'] + fragment,
{
    reveal_strlit("#");
    assert("#"@ =~= seq!['#']);
    let whole = path + seq!['#'] + fragment;
    assert forall|i: int| 0 <= i < path.len() implies path[i] != '#' by {
        assert(path.contains(path[i]));
    }
    crate::text::lemma_position_unique(path, '#', path.len() as int);
    assert forall|i: int| 0 <= i < path.len() implies whole[i] != '#' by {
        assert(whole[i] == path[i]);
    }
    assert(whole[path.len() as int] == '#');
    crate::text::lemma_position_unique(whole, '#', path.len() as int);
    assert(whole.take(path.len() as int) =~= path);
    assert(whole.skip(path.len() as int + 1) =~= fragment);
}

/// A flake that is given by a path is local, with or without `path:` and with or without a
/// fragment, and its root is that path; the empty path is the current directory. Any other path
/// is not local.
pub proof fn law_flake_roots_are_the_paths_given(path: Seq<char>, fragment: Seq<char>)
    requires
        !path.contains('#'),
    ensures
        watchable(path) ==> {
            &&& flake_root_of(path) == Some(path)
            &&& flake_root_of(path + seq!['#'] + fragment) == Some(path)
            &&& flake_root_of("path:"@ + path) == Some(path)
            &&& flake_root_of("path:"@ + path + seq!['#'] + fragment) == Some(path)
        },
        path.len() == 0 ==> {
            &&& flake_root_of(path) == Some(seq!['.'])
            &&& flake_root_of(path + seq!['#'] + fragment) == Some(seq!['.'])
            &&& flake_root_of("path:"@ + path) == Some(seq!['.'])
            &&& flake_root_of("path:"@ + path + seq!['#'] + fragment) == Some(seq!['.'])
        },
        path.len() > 0 && !watchable(path) ==> {
            &&& flake_root_of("path:"@ + path) is None
            &&& flake_root_of("path:"@ + path + seq!['#'] + fragment) is None
            &&& !(path.len() >= 5 && path.take(5) == "path:"@) ==> flake_root_of(path) is None
                && flake_root_of(path + seq!['#'] + fragment) is None
        },
{
    reveal_strlit("path:");
    lemma_path_forms(path);
    law_references_split_at_the_first_mark(path, fragment);
    let long = "path:"@ + path;
    assert(!long.contains('#')) by {
        if long.contains('#') {
            let i = long.index_of('#');
            if i >= 5 {
                assert(path[i - 5] == '#');
            }
        }
    }
    law_references_split_at_the_first_mark(long, fragment);
    assert(long.take(5) =~= "path:"@);
    assert(long.skip(5) =~= path);
    assert(stripped(long, "path:"@) == path);
    if watchable(path) || path.len() == 0 {
        assert(!has_prefix(path, "path:"@)) by {
            if has_prefix(path, "path:"@) {
                assert(path.take(5)[0] == path[0]);
                assert("path:"@[0] == 'p');
            }
        }
    }
}

/// A reference without a fragment is locked as a local one exactly where it is empty, or a path
/// that begins at the root, in the current directory or in its parent.
pub proof fn law_plain_references_are_local_by_their_path(reference: Seq<char>)
    requires
        !reference.contains('#'),
    ensures
        is_local(reference) <==> reference.len() == 0 || watchable(reference) || (reference.len() > 2
            && reference[0] == '.' && reference[1] == '.' && reference[2] == '/'),
{
    lemma_path_forms(reference);
    let inner = stripped(reference, "path:"@);
    assert(position(inner, '#') >= inner.len()) by {
        crate::text::lemma_position(inner, '#');
        let p = position(inner, '#');
        if p < inner.len() {
            reveal_strlit("path:");
            if has_prefix(reference, "path:"@) {
                assert(reference[p + 5] == '#');
            } else {
                assert(reference[p] == '#');
            }
        }
    }
}

/// A daemon is handed a path that means the same everywhere: one that is given by `path:`, at
/// the root, in the current directory or in its parent is to be resolved, the empty one as the
/// current directory, and the fragment is kept. Anything else stands as it is.
pub proof fn law_daemons_resolve_paths(path: Seq<char>, fragment: Seq<char>)
    requires
        !path.contains('#'),
    ensures
        ({
            let named = if path.len() == 0 {
                seq!['.']
            } else {
                path
            };
            &&& path_to_resolve("path:"@ + path) == Some((named, Seq::<char>::empty()))
            &&& path_to_resolve("path:"@ + path + seq!['#'] + fragment) == Some(
                (named, seq!['#'] + fragment),
            )
            &&& !(path.len() >= 5 && path.take(5) == "path:"@) ==> {
                let here = path.len() == 0 || path == seq!['.'] || path[0] == '/' || (path.len() > 1
                    && path[0] == '.' && path[1] == '/') || (path.len() > 2 && path[0] == '.'
                    && path[1] == '.' && path[2] == '/');
                &&& path_to_resolve(path) == if here {
                    Some((named, Seq::<char>::empty()))
                } else {
                    None
                }
                &&& path_to_resolve(path + seq!['#'] + fragment) == if here {
                    Some((named, seq!['#'] + fragment))
                } else {
                    None
                }
            }
        }),
{
    reveal_strlit("path:");
    lemma_path_forms(path);
    law_references_split_at_the_first_mark(path, fragment);
    let whole = path + seq!['#'] + fragment;
    let long = "path:"@ + path;
    let longest = "path:"@ + path + seq!['#'] + fragment;
    assert(long.take(5) =~= "path:"@);
    assert(long.skip(5) =~= path);
    assert(longest.take(5) =~= "path:"@);
    assert(longest.skip(5) =~= whole);
    assert(fragment_of(path) =~= Seq::empty());
    assert("."@ == seq!['.']) by {
        reveal_strlit(".");
        assert("."@ =~= seq!['.']);
    }
    if !has_prefix(path, "path:"@) {
        assert(!has_prefix(whole, "path:"@)) by {
            if has_prefix(whole, "path:"@) {
                if path.len() >= 5 {
                    assert(whole.take(5) =~= path.take(5));
                } else {
                    let at = path.len() as int;
                    assert(whole[at] == '#');
                    assert(whole.take(5)[at] == whole[at]);
                    assert("path:"@[at] != '#');
                }
            }
        }
    }
}

/// The attributes that a fragment names are what stands between its dots: with dots between them
/// they are the fragment again, and none of them holds a dot. An empty fragment names none.
pub proof fn law_fragments_name_what_stands_between_dots(fragment: Seq<char>)
    ensures
        fragment.len() == 0 ==> fragment_names(fragment).len() == 0,
        fragment.len() > 0 ==> fragment_names(fragment).len() > 0,
        crate::text::joined(fragment_names(fragment), seq!['.']) == fragment,
        forall|i: int|
            0 <= i < fragment_names(fragment).len() ==> !(#[trigger] fragment_names(
                fragment,
            )[i]).contains('.'),
{
    crate::text::law_splitting_loses_nothing(fragment, '.');
    assert(fragment.len() == 0 ==> crate::text::joined(fragment_names(fragment), seq!['.'])
        =~= fragment);
}

/// A flake named by an absolute path is rooted there, whether or not the reference says `path:`.
pub proof fn law_absolute_references_are_rooted(
    reference: &str,
    same: &str,
    r: Option<String>,
    s: Option<String>,
)
    requires
        reference@.len() > 0,
        reference@[0] == '/',
        !reference@.contains('#'),
        same@ == "path:"@ + reference@,
        call_ensures(local_flake_root, (reference,), r),
        call_ensures(local_flake_root, (same,), s),
    ensures
        r matches Some(root) && root@ == reference@,
        s matches Some(root) && root@ == reference@,
{
    law_flake_roots_are_the_paths_given(reference@, Seq::empty());
}

/// A local flake is locked as its lock file says, and any other in memory alone.
pub proof fn law_local_flakes_keep_their_lock_file(a: LockMode, b: LockMode)
    requires
        call_ensures(flake_lock_mode, (true,), a),
        call_ensures(flake_lock_mode, (false,), b),
    ensures
        a == LockMode::Check,
        b == LockMode::Virtual,
{
}

} // verus!
