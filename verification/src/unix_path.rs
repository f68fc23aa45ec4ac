//! Unix paths: their components, their order, and the directory of garbage-collector roots.

use vstd::prelude::*;
use vstd::string::*;

use crate::error::ErrorChain;
use crate::ordered_map::{MapKey, OrderedMap};
use crate::text::{
    concat2, concat3, has_prefix, join, joined, lemma_lex_irreflexive, lemma_lex_total,
    lemma_lex_transitive, lemma_position, lemma_position_unique, less, lex_less, position, same,
    segments, split, starts_with, text_less, texts,
};

verus! {

/// The only directory under which garbage-collector roots are registered.
pub const NIX_GCROOTS_DIR: &'static str = "/nix/var/nix/gcroots";

/// A component of a path.
pub enum Component {
    /// The root directory.
    RootDir,
    /// A dot at the start of a path.
    CurDir,
    /// Two dots.
    ParentDir,
    /// A name.
    Normal(String),
}

/// What a [`Component`] says.
pub enum ComponentView {
    /// See [`Component::RootDir`].
    RootDir,
    /// See [`Component::CurDir`].
    CurDir,
    /// See [`Component::ParentDir`].
    ParentDir,
    /// See [`Component::Normal`].
    Normal(Seq<char>),
}

impl View for Component {
    type V = ComponentView;

    open spec fn view(&self) -> ComponentView {
        match *self {
            Component::RootDir => ComponentView::RootDir,
            Component::CurDir => ComponentView::CurDir,
            Component::ParentDir => ComponentView::ParentDir,
            Component::Normal(s) => ComponentView::Normal(s@),
        }
    }
}

/// The components of a list.
pub open spec fn comps_view(v: Seq<Component>) -> Seq<ComponentView> {
    v.map_values(|c: Component| c@)
}

/// The component that a segment is.
pub open spec fn comp_of(segment: Seq<char>) -> ComponentView {
    if segment == ".."@ {
        ComponentView::ParentDir
    } else {
        ComponentView::Normal(segment)
    }
}

/// The components that segments give: empty ones and single dots give none.
pub open spec fn comps_of(segs: Seq<Seq<char>>) -> Seq<ComponentView>
    decreases segs.len(),
{
    if segs.len() == 0 {
        Seq::empty()
    } else {
        let rest = comps_of(segs.drop_last());
        if segs.last().len() == 0 || segs.last() == "."@ {
            rest
        } else {
            rest.push(comp_of(segs.last()))
        }
    }
}

/// The components of a path: the root directory where it begins with a slash, the current
/// one where it begins with a single dot, and then what stands between its slashes.
pub open spec fn components_of(path: Seq<char>) -> Seq<ComponentView> {
    let segs = segments(path, '/');
    let first = if has_prefix(path, "/"@) {
        seq![ComponentView::RootDir]
    } else if segs[0] == "."@ {
        seq![ComponentView::CurDir]
    } else {
        Seq::empty()
    };
    first + comps_of(segs)
}

/// The components of a path.
pub fn components(path: &str) -> (r: Vec<Component>)
    ensures
        comps_view(r@) == components_of(path@),
{
    let segs = split(path, '/');
    let mut out: Vec<Component> = Vec::new();
    if starts_with(path, "/") {
        out.push(Component::RootDir);
    } else if segs.len() > 0 && same(segs[0].as_str(), ".") {
        out.push(Component::CurDir);
    }
    let ghost first = comps_view(out@);
    let ghost all = texts(segs@);
    proof {
        lemma_segments_names(path@);
        assert(all == segments(path@, '/'));
        assert(all[0] == segs@[0]@);
        assert(all.take(0).len() == 0);
        if has_prefix(path@, "/"@) {
            assert(first =~= seq![ComponentView::RootDir]);
        } else if all[0] == "."@ {
            assert(first =~= seq![ComponentView::CurDir]);
        } else {
            assert(first =~= Seq::empty());
        }
        assert(first =~= first + comps_of(all.take(0)));
    }
    let mut i: usize = 0;
    while i < segs.len()
        invariant
            i <= segs.len(),
            all == texts(segs@),
            comps_view(out@) == first + comps_of(all.take(i as int)),
        decreases segs.len() - i,
    {
        let ghost before = comps_view(out@);
        proof {
            let next = all.take(i + 1);
            assert(next.drop_last() =~= all.take(i as int));
            assert(next.last() == segs@[i as int]@);
            reveal_strlit(".");
        }
        let seg = segs[i].as_str();
        if !(seg.unicode_len() == 0 || same(seg, ".")) {
            let comp = if same(seg, "..") {
                Component::ParentDir
            } else {
                Component::Normal(seg.to_owned())
            };
            out.push(comp);
            proof {
                assert(comps_view(out@) =~= before.push(comp@));
                assert(first + comps_of(all.take(i as int)).push(comp@) =~= before.push(comp@));
            }
        }
        i += 1;
    }
    proof {
        assert(all.take(i as int) =~= all);
    }
    out
}

/// The place of a component's kind in the order of components.
pub open spec fn comp_rank(c: ComponentView) -> int {
    match c {
        ComponentView::RootDir => 0,
        ComponentView::CurDir => 1,
        ComponentView::ParentDir => 2,
        ComponentView::Normal(_) => 3,
    }
}

/// The order of components: by kind, and names as strings.
pub open spec fn comp_less(a: ComponentView, b: ComponentView) -> bool {
    ||| comp_rank(a) < comp_rank(b)
    ||| a matches ComponentView::Normal(x) && (b matches ComponentView::Normal(y) && text_less(
        x,
        y,
    ))
}

/// The order of paths, component by component.
pub open spec fn comps_less(a: Seq<ComponentView>, b: Seq<ComponentView>) -> bool {
    lex_less(a, b, |x: ComponentView, y: ComponentView| comp_less(x, y))
}

fn rank_of(c: &Component) -> (r: u8)
    ensures
        r == comp_rank(c@),
{
    match c {
        Component::RootDir => 0,
        Component::CurDir => 1,
        Component::ParentDir => 2,
        Component::Normal(_) => 3,
    }
}

fn component_before(a: &Component, b: &Component) -> (r: bool)
    ensures
        r == comp_less(a@, b@),
{
    if rank_of(a) < rank_of(b) {
        return true;
    }
    match (a, b) {
        (Component::Normal(x), Component::Normal(y)) => less(x.as_str(), y.as_str()),
        _ => false,
    }
}

fn component_same(a: &Component, b: &Component) -> (r: bool)
    ensures
        r == (a@ == b@),
{
    match (a, b) {
        (Component::Normal(x), Component::Normal(y)) => same(x.as_str(), y.as_str()),
        _ => rank_of(a) == rank_of(b),
    }
}

fn components_before(a: &Vec<Component>, b: &Vec<Component>) -> (r: bool)
    ensures
        r == comps_less(comps_view(a@), comps_view(b@)),
{
    let mut i: usize = 0;
    let ghost order = |x: ComponentView, y: ComponentView| comp_less(x, y);
    let ghost p = comps_view(a@);
    let ghost q = comps_view(b@);
    proof {
        assert(p.skip(0) =~= p);
        assert(q.skip(0) =~= q);
    }
    while i < a.len() && i < b.len()
        invariant
            i <= a.len(),
            i <= b.len(),
            p == comps_view(a@),
            q == comps_view(b@),
            order == (|x: ComponentView, y: ComponentView| comp_less(x, y)),
            comps_less(p, q) == lex_less(p.skip(i as int), q.skip(i as int), order),
        decreases a.len() - i,
    {
        proof {
            assert(p.skip(i as int)[0] == a@[i as int]@);
            assert(q.skip(i as int)[0] == b@[i as int]@);
            assert(p.skip(i as int).skip(1) =~= p.skip(i + 1));
            assert(q.skip(i as int).skip(1) =~= q.skip(i + 1));
        }
        if !component_same(&a[i], &b[i]) {
            return component_before(&a[i], &b[i]);
        }
        i += 1;
    }
    i < b.len()
}

/// A path as a key: two paths with the same components are the same key.
pub struct PathKey {
    /// The path.
    pub path: String,
}

impl MapKey for PathKey {
    type Key = Seq<ComponentView>;

    open spec fn key(&self) -> Seq<ComponentView> {
        components_of(self.path@)
    }

    open spec fn key_less(a: Seq<ComponentView>, b: Seq<ComponentView>) -> bool {
        comps_less(a, b)
    }

    proof fn key_irreflexive(a: Seq<ComponentView>) {
        lemma_lex_irreflexive(a, |x: ComponentView, y: ComponentView| comp_less(x, y));
    }

    proof fn key_transitive(a: Seq<ComponentView>, b: Seq<ComponentView>, c: Seq<ComponentView>) {
        let order = |x: ComponentView, y: ComponentView| comp_less(x, y);
        assert forall|x: ComponentView, y: ComponentView, z: ComponentView| #[trigger]
            order(x, y) && #[trigger] order(y, z) implies order(x, z) by {
            if let (
                ComponentView::Normal(p),
                ComponentView::Normal(q),
                ComponentView::Normal(r),
            ) = (x, y, z) {
                <String as MapKey>::key_transitive(p, q, r);
            }
        }
        assert forall|x: ComponentView| !#[trigger] order(x, x) by {
            if let ComponentView::Normal(p) = x {
                <String as MapKey>::key_irreflexive(p);
            }
        }
        lemma_lex_transitive(a, b, c, order);
    }

    proof fn key_total(a: Seq<ComponentView>, b: Seq<ComponentView>) {
        let order = |x: ComponentView, y: ComponentView| comp_less(x, y);
        assert forall|x: ComponentView, y: ComponentView|
            x == y || #[trigger] order(x, y) || order(y, x) by {
            if let (ComponentView::Normal(p), ComponentView::Normal(q)) = (x, y) {
                <String as MapKey>::key_total(p, q);
            }
        }
        lemma_lex_total(a, b, order);
    }

    fn before(&self, other: &Self) -> (r: bool) {
        components_before(&components(self.path.as_str()), &components(other.path.as_str()))
    }

    fn copy_key(&self) -> (r: Self) {
        PathKey { path: self.path.clone() }
    }
}

/// Whether `sorted` are the paths of `paths` in order, each of those with the same components
/// once, as it was first written.
pub open spec fn sorts_paths(sorted: Seq<Seq<char>>, paths: Seq<Seq<char>>) -> bool {
    &&& forall|i: int, j: int|
        0 <= i < j < sorted.len() ==> comps_less(
            components_of(#[trigger] sorted[i]),
            components_of(#[trigger] sorted[j]),
        )
    &&& forall|i: int| 0 <= i < sorted.len() ==> first_written(#[trigger] sorted[i], paths)
    &&& forall|j: int|
        0 <= j < paths.len() ==> has_comps(sorted, components_of(#[trigger] paths[j]))
}

/// Whether some path of the list has these components.
pub open spec fn has_comps(list: Seq<Seq<char>>, comps: Seq<ComponentView>) -> bool {
    exists|i: int| 0 <= i < list.len() && components_of(#[trigger] list[i]) == comps
}

/// Whether `path` is in the list, and no path with the same components stands before it.
pub open spec fn first_written(path: Seq<char>, list: Seq<Seq<char>>) -> bool {
    exists|j: int|
        0 <= j < list.len() && #[trigger] list[j] == path && !has_comps(
            list.take(j),
            components_of(path),
        )
}

/// Sorts paths and drops those whose components another one before them has.
pub fn sort_paths(paths: &Vec<String>) -> (r: Vec<String>)
    ensures
        sorts_paths(texts(r@), texts(paths@)),
{
    let mut map: OrderedMap<PathKey, String> = OrderedMap::new();
    let ghost all = texts(paths@);
    let mut i: usize = 0;
    while i < paths.len()
        invariant
            i <= paths.len(),
            all == texts(paths@),
            forall|k: Seq<ComponentView>| #[trigger]
                map@.contains_key(k) ==> components_of(map@[k]@) == k && first_written(
                    map@[k]@,
                    all,
                ) && has_comps(all.take(i as int), k),
            forall|j: int| 0 <= j < i ==> map@.contains_key(components_of(#[trigger] all[j])),
        decreases paths.len() - i,
    {
        let key = PathKey { path: paths[i].clone() };
        let ghost k = key.key();
        let ghost before = map@;
        let absent: bool = map.get(&key).is_none();
        proof {
            assert(all[i as int] == paths@[i as int]@);
            assert forall|c: Seq<ComponentView>| has_comps(all.take(i as int), c) implies has_comps(
                all.take(i + 1),
                c,
            ) by {
                let j = choose|j: int|
                    0 <= j < all.take(i as int).len() && components_of(
                        #[trigger] all.take(i as int)[j],
                    ) == c;
                assert(all.take(i + 1)[j] == all.take(i as int)[j]);
            }
            assert(all.take(i + 1)[i as int] == all[i as int]);
            assert(has_comps(all.take(i + 1), k));
            if absent {
                assert(!has_comps(all.take(i as int), k)) by {
                    if has_comps(all.take(i as int), k) {
                        let j = choose|j: int|
                            0 <= j < all.take(i as int).len() && components_of(
                                #[trigger] all.take(i as int)[j],
                            ) == k;
                        assert(all.take(i as int)[j] == all[j]);
                    }
                }
                assert(first_written(all[i as int], all));
            }
        }
        if absent {
            map.insert(key, paths[i].clone());
        }
        i += 1;
    }
    let n: usize = map.len();
    let mut out: Vec<String> = Vec::new();
    let mut m: usize = 0;
    while m < n
        invariant
            m <= n,
            n == map.keys().len(),
            out.len() == m,
            forall|j: int| 0 <= j < m ==> (#[trigger] out@[j])@ == map@[map.keys()[j]]@,
        decreases n - m,
    {
        out.push(map.value_at(m).clone());
        m += 1;
    }
    proof {
        let sorted = texts(out@);
        assert forall|a: int| 0 <= a < sorted.len() implies components_of(#[trigger] sorted[a])
            == map.keys()[a] && first_written(sorted[a], all) by {
            assert(sorted[a] == out@[a]@);
            assert(map.keys().contains(map.keys()[a]));
            assert(map@.contains_key(map.keys()[a]));
        }
        assert forall|j: int| 0 <= j < all.len() implies has_comps(
            sorted,
            components_of(#[trigger] all[j]),
        ) by {
            let c = components_of(all[j]);
            assert(map@.contains_key(c));
            assert(map.keys().contains(c));
            let a = map.keys().index_of(c);
            assert(components_of(sorted[a]) == c);
        }
    }
    out
}

/// `path` below `base`: an absolute one alone, any other with a slash between them.
pub open spec fn joined_path(base: Seq<char>, path: Seq<char>) -> Seq<char> {
    if has_prefix(path, "/"@) {
        path
    } else if base.len() == 0 || base.last() == '/' {
        base + path
    } else {
        base + "/"@ + path
    }
}

/// `path` below `base`.
pub fn join_path(base: &str, path: &str) -> (r: String)
    ensures
        r@ == joined_path(base@, path@),
{
    if starts_with(path, "/") {
        return path.to_owned();
    }
    let n: usize = base.unicode_len();
    if n == 0 || base.get_char(n - 1) == '/' {
        concat2(base, path)
    } else {
        concat3(base, "/", path)
    }
}

/// The name that a path ends with.
pub open spec fn file_name_of(path: Seq<char>) -> Option<Seq<char>> {
    let comps = components_of(path);
    if comps.len() > 0 {
        match comps.last() {
            ComponentView::Normal(name) => Some(name),
            _ => None,
        }
    } else {
        None
    }
}

/// The name that a path ends with.
pub fn file_name(path: &str) -> (r: Option<String>)
    ensures
        crate::text::text_opt(r) == file_name_of(path@),
{
    let comps = components(path);
    if comps.len() == 0 {
        return None;
    }
    proof {
        assert(components_of(path@).last() == comps@[comps.len() - 1]@);
    }
    match &comps[comps.len() - 1] {
        Component::Normal(name) => Some(name.clone()),
        _ => None,
    }
}

/// The names left when each `..` has taken back the name before it; `None` where there is
/// none to take back.
pub open spec fn resolved(comps: Seq<ComponentView>) -> Option<Seq<Seq<char>>>
    decreases comps.len(),
{
    if comps.len() == 0 {
        Some(Seq::empty())
    } else {
        match resolved(comps.drop_last()) {
            None => None,
            Some(parts) => match comps.last() {
                ComponentView::RootDir => Some(Seq::empty()),
                ComponentView::CurDir => Some(parts),
                ComponentView::Normal(name) => Some(parts.push(name)),
                ComponentView::ParentDir => if parts.len() == 0 {
                    None
                } else {
                    Some(parts.drop_last())
                },
            },
        }
    }
}

/// The absolute path with these names.
pub open spec fn absolute(parts: Seq<Seq<char>>) -> Seq<char> {
    "/"@ + joined(parts, "/"@)
}

/// The names of an absolute path without dots, or the message of its error.
pub open spec fn normal_parts(path: Seq<char>) -> Result<Seq<Seq<char>>, Seq<char>> {
    match resolved(components_of(path)) {
        None => Err("path escapes filesystem root: "@ + path),
        Some(parts) => if has_prefix(path, "/"@) {
            Ok(parts)
        } else {
            Err("gc roots dir must be absolute: "@ + path)
        },
    }
}

proof fn lemma_root_first(path: Seq<char>)
    ensures
        has_prefix(path, "/"@) <==> exists|i: int|
            0 <= i < components_of(path).len() && #[trigger] components_of(path)[i]
                == ComponentView::RootDir,
{
    let segs = segments(path, '/');
    lemma_comps_no_root(segs);
    if has_prefix(path, "/"@) {
        assert(components_of(path)[0] == ComponentView::RootDir);
    } else if exists|i: int|
        0 <= i < components_of(path).len() && #[trigger] components_of(path)[i]
            == ComponentView::RootDir {
        let i = choose|i: int|
            0 <= i < components_of(path).len() && #[trigger] components_of(path)[i]
                == ComponentView::RootDir;
        let n = components_of(path).len() - comps_of(segs).len();
        if i >= n {
            assert(components_of(path)[i] == comps_of(segs)[i - n]);
        }
    }
}

proof fn lemma_comps_no_root(segs: Seq<Seq<char>>)
    ensures
        forall|i: int|
            0 <= i < comps_of(segs).len() ==> !((#[trigger] comps_of(segs)[i]) is RootDir),
    decreases segs.len(),
{
    if segs.len() > 0 {
        lemma_comps_no_root(segs.drop_last());
    }
}

proof fn lemma_resolved_fault(comps: Seq<ComponentView>, n: int)
    requires
        0 <= n <= comps.len(),
        resolved(comps.take(n)) is None,
    ensures
        resolved(comps) is None,
    decreases comps.len() - n,
{
    if n == comps.len() {
        assert(comps.take(n) =~= comps);
    } else {
        assert(comps.take(n + 1).drop_last() =~= comps.take(n));
        lemma_resolved_fault(comps, n + 1);
    }
}

/// The absolute path without dots that `path` stands for.
pub fn normalize_absolute(path: &str) -> (r: Result<Vec<String>, ErrorChain>)
    ensures
        match r {
            Ok(parts) => normal_parts(path@) == Ok::<Seq<Seq<char>>, Seq<char>>(texts(parts@)),
            Err(e) => {
                &&& normal_parts(path@) == Err::<Seq<Seq<char>>, Seq<char>>(e@[0])
                &&& e@.len() == 1
            },
        },
{
    let comps = components(path);
    let ghost all = comps_view(comps@);
    let mut is_absolute: bool = false;
    let mut parts: Vec<String> = Vec::new();
    let mut i: usize = 0;
    proof {
        assert(all.take(0).len() == 0);
        assert(texts(parts@) =~= Seq::<Seq<char>>::empty());
    }
    while i < comps.len()
        invariant
            i <= comps.len(),
            all == comps_view(comps@),
            all == components_of(path@),
            resolved(all.take(i as int)) == Some(texts(parts@)),
            is_absolute <==> exists|j: int|
                0 <= j < i && #[trigger] all[j] == ComponentView::RootDir,
        decreases comps.len() - i,
    {
        let ghost before = texts(parts@);
        proof {
            let next = all.take(i + 1);
            assert(next.drop_last() =~= all.take(i as int));
            assert(next.last() == comps@[i as int]@);
            assert(all[i as int] == comps@[i as int]@);
        }
        match &comps[i] {
            Component::RootDir => {
                is_absolute = true;
                parts = Vec::new();
                proof {
                    assert(texts(parts@) =~= Seq::<Seq<char>>::empty());
                }
            },
            Component::CurDir => {},
            Component::Normal(name) => {
                parts.push(name.clone());
                proof {
                    assert(texts(parts@) =~= before.push(name@));
                }
            },
            Component::ParentDir => {
                if parts.pop().is_none() {
                    proof {
                        lemma_resolved_fault(all, i + 1);
                    }
                    return Err(
                        ErrorChain::from_message(concat2("path escapes filesystem root: ", path)),
                    );
                }
                proof {
                    assert(texts(parts@) =~= before.drop_last());
                }
            },
        }
        i += 1;
    }
    proof {
        assert(all.take(i as int) =~= all);
        lemma_root_first(path@);
    }
    if !is_absolute {
        return Err(ErrorChain::from_message(concat2("gc roots dir must be absolute: ", path)));
    }
    Ok(parts)
}

/// The names of the directory of garbage-collector roots.
pub open spec fn gc_root_parts() -> Seq<Seq<char>> {
    seq!["nix"@, "var"@, "nix"@, "gcroots"@]
}

/// Whether a path is below the directory of garbage-collector roots, or is it.
pub open spec fn under_gc_roots(parts: Seq<Seq<char>>) -> bool {
    parts.len() >= 4 && parts.take(4) == gc_root_parts()
}

fn is_under_gc_roots(parts: &Vec<String>) -> (r: bool)
    ensures
        r == under_gc_roots(texts(parts@)),
{
    if parts.len() < 4 {
        return false;
    }
    let found: bool = same(parts[0].as_str(), "nix") && same(parts[1].as_str(), "var") && same(
        parts[2].as_str(),
        "nix",
    ) && same(parts[3].as_str(), "gcroots");
    proof {
        let four = texts(parts@).take(4);
        assert(four[0] == parts@[0]@);
        assert(four[1] == parts@[1]@);
        assert(four[2] == parts@[2]@);
        assert(four[3] == parts@[3]@);
        if found {
            assert(four =~= gc_root_parts());
        }
    }
    found
}

/// The directory that garbage-collector roots may be registered in, or the message of its
/// error.
pub open spec fn gc_roots_dir_of(path: Seq<char>) -> Result<Seq<char>, Seq<char>> {
    match normal_parts(path) {
        Err(e) => Err(e),
        Ok(parts) => if under_gc_roots(parts) {
            Ok(absolute(parts))
        } else {
            Err("gc roots dir must be under "@ + NIX_GCROOTS_DIR@ + ": "@ + path)
        },
    }
}

/// The directory that garbage-collector roots may be registered in: an absolute path below
/// the one directory of such roots, without dots.
pub fn validate_gc_roots_dir_path(gc_dir: &str) -> (r: Result<String, ErrorChain>)
    ensures
        match r {
            Ok(dir) => gc_roots_dir_of(gc_dir@) == Ok::<Seq<char>, Seq<char>>(dir@),
            Err(e) => {
                &&& gc_roots_dir_of(gc_dir@) == Err::<Seq<char>, Seq<char>>(e@[0])
                &&& e@.len() == 1
            },
        },
{
    let parts = match normalize_absolute(gc_dir) {
        Ok(parts) => parts,
        Err(e) => {
            return Err(e);
        },
    };
    if !is_under_gc_roots(&parts) {
        let mut message = concat3("gc roots dir must be under ", NIX_GCROOTS_DIR, ": ");
        message.append(gc_dir);
        return Err(ErrorChain::from_message(message));
    }
    Ok(concat2("/", join(parts.as_slice(), "/").as_str()))
}

/// Rejects a directory that symbolic links lead out of the tree of garbage-collector roots;
/// `canonical` and `root` are the resolved paths of the directory and of that tree.
pub fn check_resolved_gc_dir(gc_dir: &str, canonical: &str, root: &str) -> (r: Result<
    (),
    ErrorChain,
>)
    ensures
        match r {
            Ok(()) => comps_prefix(components_of(canonical@), components_of(root@)),
            Err(e) => {
                &&& !comps_prefix(components_of(canonical@), components_of(root@))
                &&& e@ == seq!["gc roots dir resolves outside "@ + NIX_GCROOTS_DIR@ + ": "@ + gc_dir@]
            },
        },
{
    if path_starts_with(canonical, root) {
        Ok(())
    } else {
        let mut message = concat3("gc roots dir resolves outside ", NIX_GCROOTS_DIR, ": ");
        message.append(gc_dir);
        Err(ErrorChain::from_message(message))
    }
}

/// Whether the components begin with those of a prefix.
pub open spec fn comps_prefix(comps: Seq<ComponentView>, prefix: Seq<ComponentView>) -> bool {
    prefix.len() <= comps.len() && comps.take(prefix.len() as int) == prefix
}

/// Whether a path is below another one, or is it: component by component.
pub fn path_starts_with(path: &str, prefix: &str) -> (r: bool)
    ensures
        r == comps_prefix(components_of(path@), components_of(prefix@)),
{
    let a = components(path);
    let b = components(prefix);
    let ghost p = comps_view(a@);
    let ghost q = comps_view(b@);
    if b.len() > a.len() {
        return false;
    }
    let mut i: usize = 0;
    while i < b.len()
        invariant
            i <= b.len(),
            b.len() <= a.len(),
            p == comps_view(a@),
            q == comps_view(b@),
            p == components_of(path@),
            q == components_of(prefix@),
            p.take(i as int) == q.take(i as int),
        decreases b.len() - i,
    {
        if !component_same(&a[i], &b[i]) {
            proof {
                assert(p.take(q.len() as int)[i as int] == a@[i as int]@);
                assert(q[i as int] == b@[i as int]@);
            }
            return false;
        }
        proof {
            assert(p.take(i + 1) =~= p.take(i as int).push(p[i as int]));
            assert(q.take(i + 1) =~= q.take(i as int).push(q[i as int]));
        }
        i += 1;
    }
    proof {
        assert(q.take(i as int) =~= q);
    }
    true
}

/// The symbolic link of a derivation's garbage-collector root.
pub fn gc_root_link(gc_dir: &str, drv_path: &str) -> (r: Result<String, ErrorChain>)
    ensures
        match r {
            Ok(link) => file_name_of(drv_path@) matches Some(name) && link@ == joined_path(
                gc_dir@,
                name,
            ),
            Err(e) => file_name_of(drv_path@) is None && e@ == seq!["drv path has no filename"@],
        },
{
    match file_name(drv_path) {
        Some(name) => Ok(join_path(gc_dir, name.as_str())),
        None => Err(ErrorChain::new("drv path has no filename")),
    }
}

/// What a look at a path found.
#[derive(Debug)]
pub enum Found {
    /// Something is there, be it a link that leads nowhere.
    Present,
    /// Nothing is there.
    Missing,
    /// The look failed.
    Failed(String),
}

/// Whether the symbolic link of a garbage-collector root is to be made: not where anything
/// stands in its place already.
pub fn create_gc_root_link(link: &str, found: &Found) -> (r: Result<bool, ErrorChain>)
    ensures
        match *found {
            Found::Present => r == Ok::<bool, ErrorChain>(false),
            Found::Missing => r == Ok::<bool, ErrorChain>(true),
            Found::Failed(cause) => r matches Err(e) && e@ == seq![
                "checking gc root "@ + link@,
                cause@,
            ],
        },
{
    match found {
        Found::Present => Ok(false),
        Found::Missing => Ok(true),
        Found::Failed(cause) => Err(
            ErrorChain::new(cause.as_str()).context(concat2("checking gc root ", link).as_str()),
        ),
    }
}

/// Whether a text can be a name in a path.
pub open spec fn is_name(s: Seq<char>) -> bool {
    &&& s.len() > 0
    &&& s != "."@
    &&& s != ".."@
    &&& !s.contains('/')
}

proof fn lemma_segments_names(s: Seq<char>)
    ensures
        forall|i: int|
            0 <= i < segments(s, '/').len() ==> !(#[trigger] segments(s, '/')[i]).contains('/'),
        segments(s, '/').len() > 0,
    decreases s.len(),
{
    let p = position(s, '/');
    lemma_position(s, '/');
    if p < s.len() {
        let rest = s.skip(p + 1);
        lemma_segments_names(rest);
        let head = s.take(p);
        assert(!head.contains('/'));
        assert forall|i: int| 0 <= i < segments(s, '/').len() implies !(#[trigger] segments(
            s,
            '/',
        )[i]).contains('/') by {
            if i > 0 {
                assert(segments(s, '/')[i] == segments(rest, '/')[i - 1]);
            }
        }
    } else {
        assert(!s.contains('/'));
    }
}

proof fn lemma_comps_names(segs: Seq<Seq<char>>)
    requires
        forall|i: int| 0 <= i < segs.len() ==> !(#[trigger] segs[i]).contains('/'),
    ensures
        forall|i: int|
            0 <= i < comps_of(segs).len() ==> ((#[trigger] comps_of(segs)[i]) matches ComponentView::Normal(
                name,
            ) ==> is_name(name)),
    decreases segs.len(),
{
    if segs.len() > 0 {
        let init = segs.drop_last();
        assert forall|i: int| 0 <= i < init.len() implies !(#[trigger] init[i]).contains('/') by {
            assert(init[i] == segs[i]);
        }
        lemma_comps_names(init);
        assert(segs.last() == segs[segs.len() - 1]);
    }
}

proof fn lemma_resolved_names(comps: Seq<ComponentView>)
    requires
        forall|i: int|
            0 <= i < comps.len() ==> ((#[trigger] comps[i]) matches ComponentView::Normal(name)
                ==> is_name(name)),
    ensures
        resolved(comps) matches Some(parts) ==> forall|i: int|
            0 <= i < parts.len() ==> is_name(#[trigger] parts[i]),
    decreases comps.len(),
{
    if comps.len() > 0 {
        let init = comps.drop_last();
        assert forall|i: int| 0 <= i < init.len() implies ((#[trigger] init[i]) matches ComponentView::Normal(
            name,
        ) ==> is_name(name)) by {
            assert(init[i] == comps[i]);
        }
        lemma_resolved_names(init);
        assert(comps.last() == comps[comps.len() - 1]);
    }
}

proof fn lemma_segments_push(s: Seq<char>, name: Seq<char>)
    requires
        !name.contains('/'),
    ensures
        segments(s + "/"@ + name, '/') == segments(s, '/').push(name),
    decreases s.len(),
{
    reveal_strlit("/");
    let whole = s + "/"@ + name;
    let p = position(s, '/');
    lemma_position(s, '/');
    if p < s.len() {
        lemma_position_unique(whole, '/', p);
        assert(whole.take(p) =~= s.take(p));
        assert(whole.skip(p + 1) =~= s.skip(p + 1) + "/"@ + name);
        lemma_segments_push(s.skip(p + 1), name);
        assert(segments(whole, '/') =~= segments(s, '/').push(name));
    } else {
        assert(whole[s.len() as int] == '/');
        lemma_position_unique(whole, '/', s.len() as int);
        assert(whole.take(s.len() as int) =~= s);
        let rest = whole.skip(s.len() as int + 1);
        assert(rest =~= name);
        assert(forall|i: int| 0 <= i < name.len() ==> name[i] != '/');
        lemma_position_unique(name, '/', name.len() as int);
        assert(segments(name, '/') =~= seq![name]);
        assert(segments(whole, '/') =~= segments(s, '/').push(name));
    }
}

proof fn lemma_absolute_segments(parts: Seq<Seq<char>>)
    requires
        forall|i: int| 0 <= i < parts.len() ==> is_name(#[trigger] parts[i]),
    ensures
        parts.len() > 0 ==> segments(absolute(parts), '/') == seq![Seq::<char>::empty()] + parts,
        parts.len() == 0 ==> segments(absolute(parts), '/') == seq![
            Seq::<char>::empty(),
            Seq::<char>::empty(),
        ],
    decreases parts.len(),
{
    reveal_strlit("/");
    let empty = Seq::<char>::empty();
    lemma_position_unique(empty, '/', 0);
    assert(segments(empty, '/') =~= seq![empty]);
    if parts.len() == 0 {
        assert(absolute(parts) =~= empty + "/"@ + empty);
        lemma_segments_push(empty, empty);
        assert(segments(absolute(parts), '/') =~= seq![empty, empty]);
    } else {
        let init = parts.drop_last();
        assert forall|i: int| 0 <= i < init.len() implies is_name(#[trigger] init[i]) by {
            assert(init[i] == parts[i]);
        }
        lemma_absolute_segments(init);
        assert(is_name(parts[parts.len() - 1]));
        if init.len() == 0 {
            assert(absolute(parts) =~= empty + "/"@ + parts.last());
            lemma_segments_push(empty, parts.last());
            assert(segments(absolute(parts), '/') =~= seq![empty] + parts);
        } else {
            assert(absolute(parts) =~= absolute(init) + "/"@ + parts.last());
            lemma_segments_push(absolute(init), parts.last());
            assert(segments(absolute(parts), '/') =~= seq![empty] + parts);
        }
    }
}

proof fn lemma_names_resolved(parts: Seq<Seq<char>>)
    requires
        forall|i: int| 0 <= i < parts.len() ==> is_name(#[trigger] parts[i]),
    ensures
        resolved(seq![ComponentView::RootDir] + comps_of(seq![Seq::<char>::empty()] + parts))
            == Some(parts),
    decreases parts.len(),
{
    let empty = Seq::<char>::empty();
    let segs = seq![empty] + parts;
    let root = seq![ComponentView::RootDir];
    if parts.len() == 0 {
        assert(segs.drop_last() =~= Seq::<Seq<char>>::empty());
        assert(segs.last() == empty);
        assert(comps_of(segs.drop_last()) =~= Seq::empty());
        assert(comps_of(segs) =~= Seq::empty());
        assert(root + comps_of(segs) =~= root);
        assert(root.drop_last() =~= Seq::empty());
        assert(resolved(root.drop_last()) is Some);
        assert(root.last() == ComponentView::RootDir);
        assert(resolved(root) == Some(Seq::<Seq<char>>::empty()));
        assert(parts =~= Seq::empty());
    } else {
        let init = parts.drop_last();
        assert forall|i: int| 0 <= i < init.len() implies is_name(#[trigger] init[i]) by {
            assert(init[i] == parts[i]);
        }
        lemma_names_resolved(init);
        let name = parts.last();
        assert(is_name(parts[parts.len() - 1]));
        assert(segs.drop_last() =~= seq![empty] + init);
        assert(segs.last() == name);
        let whole = root + comps_of(segs);
        assert(whole =~= (root + comps_of(seq![empty] + init)).push(ComponentView::Normal(name)));
        assert(whole.drop_last() =~= root + comps_of(seq![empty] + init));
        assert(init.push(name) =~= parts);
    }
}

/// A directory that is accepted lies below the one directory of garbage-collector roots, and
/// being accepted again changes nothing: no dots are left in it.
pub proof fn law_gc_roots_dir_is_contained(path: Seq<char>)
    requires
        gc_roots_dir_of(path) is Ok,
    ensures
        normal_parts(path) matches Ok(parts) && under_gc_roots(parts) && gc_roots_dir_of(path)
            == Ok::<Seq<char>, Seq<char>>(absolute(parts)) && forall|i: int|
            0 <= i < parts.len() ==> is_name(#[trigger] parts[i]),
        gc_roots_dir_of(gc_roots_dir_of(path)->Ok_0) == gc_roots_dir_of(path),
{
    let parts = normal_parts(path)->Ok_0;
    let segs = segments(path, '/');
    lemma_segments_names(path);
    lemma_comps_names(segs);
    let comps = components_of(path);
    let n = comps.len() - comps_of(segs).len();
    assert forall|i: int| 0 <= i < comps.len() implies ((#[trigger] comps[i]) matches ComponentView::Normal(
        name,
    ) ==> is_name(name)) by {
        if i >= n {
            assert(comps[i] == comps_of(segs)[i - n]);
        }
    }
    lemma_resolved_names(comps);
    let dir = absolute(parts);
    lemma_absolute_segments(parts);
    lemma_names_resolved(parts);
    reveal_strlit("/");
    assert(dir.take(1) =~= "/"@);
    assert(has_prefix(dir, "/"@));
    assert(segments(dir, '/') == seq![Seq::<char>::empty()] + parts);
    assert(components_of(dir) == seq![ComponentView::RootDir] + comps_of(segments(dir, '/')));
    assert(resolved(components_of(dir)) == Some(parts));
}

proof fn lemma_segments_concat(a: Seq<char>, b: Seq<char>)
    ensures
        segments(a + seq!['/'] + b, '/') == segments(a, '/') + segments(b, '/'),
    decreases a.len(),
{
    let p = position(a, '/');
    lemma_position(a, '/');
    if p >= a.len() {
        assert(!a.contains('/')) by {
            if a.contains('/') {
                assert(a[a.index_of('/')] == '/');
            }
        }
        crate::text::law_splitting_goes_on_behind_a_separator(a, b, '/');
    } else {
        let head = a.take(p);
        let tail = a.skip(p + 1);
        lemma_segments_concat(tail, b);
        assert(!head.contains('/')) by {
            if head.contains('/') {
                assert(a[head.index_of('/')] == '/');
            }
        }
        let rest = tail + seq!['/'] + b;
        crate::text::law_splitting_goes_on_behind_a_separator(head, rest, '/');
        crate::text::law_splitting_goes_on_behind_a_separator(head, tail, '/');
        assert(a =~= head + seq!['/'] + tail);
        assert(a + seq!['/'] + b =~= head + seq!['/'] + rest);
        assert(segments(a + seq!['/'] + b, '/') =~= segments(a, '/') + segments(b, '/'));
    }
}

proof fn lemma_comps_push(segs: Seq<Seq<char>>, last: Seq<char>)
    ensures
        comps_of(segs.push(last)) == if last.len() == 0 || last == "."@ {
            comps_of(segs)
        } else {
            comps_of(segs).push(comp_of(last))
        },
{
    assert(segs.push(last).drop_last() =~= segs);
}

proof fn lemma_one_segment(name: Seq<char>)
    requires
        !name.contains('/'),
    ensures
        segments(name, '/') == seq![name],
        !has_prefix(name, "/"@),
{
    crate::text::law_splitting_goes_on_behind_a_separator(name, name, '/');
    reveal_strlit("/");
    if has_prefix(name, "/"@) {
        assert(name.take(1)[0] == '/');
        assert(name.contains(name[0]));
    }
}

proof fn lemma_grown_path(path: Seq<char>, name: Seq<char>)
    requires
        path.len() > 0,
        !name.contains('/'),
    ensures
        components_of(path + seq!['/'] + name) == if name.len() == 0 || name == "."@ {
            components_of(path)
        } else {
            components_of(path).push(comp_of(name))
        },
{
    let whole = path + seq!['/'] + name;
    lemma_segments_concat(path, name);
    lemma_one_segment(name);
    let segs = segments(path, '/');
    lemma_segments_names(path);
    assert(segments(whole, '/') =~= segs.push(name));
    lemma_comps_push(segs, name);
    reveal_strlit("/");
    assert(whole.take(1) =~= path.take(1));
    assert(segments(whole, '/')[0] == segs[0]);
    assert(components_of(whole) =~= if name.len() == 0 || name == "."@ {
        components_of(path)
    } else {
        components_of(path).push(comp_of(name))
    });
}

/// The components of a path are read from its slashes: a name behind one more slash is one more
/// component, two dots there are the directory above, and a dot or nothing adds none. The root,
/// the current directory and a bare name stand for themselves.
pub proof fn law_paths_are_made_of_their_names(path: Seq<char>, name: Seq<char>)
    requires
        path.len() > 0,
        is_name(name),
    ensures
        components_of(path + seq!['/'] + name) == components_of(path).push(
            ComponentView::Normal(name),
        ),
        components_of(path + seq!['/'] + seq!['.', '.']) == components_of(path).push(
            ComponentView::ParentDir,
        ),
        components_of(path + seq!['/'] + seq!['.']) == components_of(path),
        components_of(path + seq!['/']) == components_of(path),
        components_of(name) == seq![ComponentView::Normal(name)],
        components_of(seq!['/'] + name) == seq![ComponentView::RootDir, ComponentView::Normal(name)],
        components_of(seq!['/']) == seq![ComponentView::RootDir],
        components_of(seq!['.']) == seq![ComponentView::CurDir],
        components_of(seq!['.', '.']) == seq![ComponentView::ParentDir],
        components_of(Seq::empty()) == Seq::<ComponentView>::empty(),
{
    reveal_strlit("/");
    reveal_strlit(".");
    reveal_strlit("..");
    let none = Seq::<char>::empty();
    let dot = seq!['.'];
    let dots = seq!['.', '.'];
    let slash = seq!['/'];
    assert("."@ =~= dot);
    assert(".."@ =~= dots);
    assert("/"@ =~= slash);
    lemma_grown_path(path, name);
    lemma_grown_path(path, dots);
    lemma_grown_path(path, dot);
    lemma_grown_path(path, none);
    assert(path + slash + none =~= path + slash);
    assert(comp_of(dots) == ComponentView::ParentDir);
    lemma_one_segment(name);
    lemma_one_segment(dot);
    lemma_one_segment(dots);
    lemma_one_segment(none);
    let nothing = Seq::<Seq<char>>::empty();
    assert(comps_of(nothing) =~= Seq::empty());
    lemma_comps_push(nothing, name);
    lemma_comps_push(nothing, dot);
    lemma_comps_push(nothing, dots);
    lemma_comps_push(nothing, none);
    assert(nothing.push(name) =~= seq![name]);
    assert(nothing.push(dot) =~= seq![dot]);
    assert(nothing.push(dots) =~= seq![dots]);
    assert(nothing.push(none) =~= seq![none]);
    assert(components_of(name) =~= seq![ComponentView::Normal(name)]);
    assert(dot != dots) by {
        assert(dot.len() == 1 && dots.len() == 2);
    }
    assert(components_of(dot) =~= seq![ComponentView::CurDir]);
    assert(components_of(dots) =~= seq![ComponentView::ParentDir]);
    assert(components_of(none) =~= Seq::empty());
    lemma_segments_concat(none, none);
    assert(none + slash + none =~= slash);
    assert(segments(slash, '/') =~= seq![none].push(none));
    lemma_comps_push(seq![none], none);
    assert(slash.take(1) =~= slash);
    assert(components_of(slash) =~= seq![ComponentView::RootDir]);
    lemma_segments_concat(none, name);
    assert(none + slash + name =~= slash + name);
    assert(segments(slash + name, '/') =~= seq![none].push(name));
    lemma_comps_push(seq![none], name);
    assert((slash + name).take(1) =~= slash);
    assert(components_of(slash + name) =~= seq![
        ComponentView::RootDir,
        ComponentView::Normal(name),
    ]);
}

/// A path below a directory is the directory, a slash and the path; no second slash is put
/// behind one, an absolute path stands alone, and below nothing a path is itself.
pub proof fn law_paths_join_with_one_slash(base: Seq<char>, path: Seq<char>)
    ensures
        path.len() > 0 && path[0] == '/' ==> joined_path(base, path) == path,
        (path.len() == 0 || path[0] != '/') && base.len() > 0 && base.last() != '/' ==> joined_path(
            base,
            path,
        ) == base + seq!['/'] + path,
        (path.len() == 0 || path[0] != '/') && base.len() > 0 && base.last() == '/' ==> joined_path(
            base,
            path,
        ) == base + path,
        (path.len() == 0 || path[0] != '/') && base.len() == 0 ==> joined_path(base, path) == path,
{
    reveal_strlit("/");
    assert("/"@ =~= seq!['/']);
    if path.len() > 0 {
        assert(path.take(1)[0] == path[0]);
        if path[0] == '/' {
            assert(path.take(1) =~= "/"@);
        }
    }
    assert(base.len() == 0 ==> base + path =~= path);
}

/// A path ends with the name behind its last slash, and slashes behind that do not matter.
pub proof fn law_paths_end_with_their_last_name(path: Seq<char>, name: Seq<char>)
    requires
        path.len() > 0,
        is_name(name),
    ensures
        file_name_of(path + seq!['/'] + name) == Some(name),
        file_name_of(path + seq!['/'] + name + seq!['/']) == Some(name),
        file_name_of(name) == Some(name),
        file_name_of(path + seq!['/'] + seq!['.', '.']) is None,
{
    law_paths_are_made_of_their_names(path, name);
    law_paths_are_made_of_their_names(path + seq!['/'] + name, name);
    assert(components_of(path).push(ComponentView::Normal(name)).last() == ComponentView::Normal(
        name,
    ));
    assert(components_of(path).push(ComponentView::ParentDir).last() == ComponentView::ParentDir);
}

/// An absolute path stands for the names on its way: one more name is one more of them, two dots
/// take the last one back, which they cannot do at the root, and a dot or a slash changes
/// nothing. Paths that are not absolute are refused.
pub proof fn law_absolute_paths_are_resolved(path: Seq<char>, name: Seq<char>)
    requires
        path.len() > 0,
        is_name(name),
    ensures
        normal_parts(seq!['/']) == Ok::<Seq<Seq<char>>, Seq<char>>(Seq::empty()),
        normal_parts(path) matches Ok(parts) ==> {
            &&& normal_parts(path + seq!['/'] + name) == Ok::<Seq<Seq<char>>, Seq<char>>(
                parts.push(name),
            )
            &&& normal_parts(path + seq!['/'] + seq!['.']) == Ok::<Seq<Seq<char>>, Seq<char>>(parts)
            &&& normal_parts(path + seq!['/']) == Ok::<Seq<Seq<char>>, Seq<char>>(parts)
            &&& parts.len() > 0 ==> normal_parts(path + seq!['/'] + seq!['.', '.']) == Ok::<
                Seq<Seq<char>>,
                Seq<char>,
            >(parts.drop_last())
            &&& parts.len() == 0 ==> normal_parts(path + seq!['/'] + seq!['.', '.']) is Err
        },
        path[0] != '/' ==> normal_parts(path) is Err,
{
    reveal_strlit("/");
    assert("/"@ =~= seq!['/']);
    law_paths_are_made_of_their_names(path, name);
    let comps = components_of(path);
    assert(comps.push(ComponentView::Normal(name)).drop_last() =~= comps);
    assert(comps.push(ComponentView::ParentDir).drop_last() =~= comps);
    let root = seq![ComponentView::RootDir];
    assert(root.drop_last() =~= Seq::empty());
    assert(resolved(Seq::empty()) == Some(Seq::<Seq<char>>::empty()));
    assert(resolved(root) == Some(Seq::<Seq<char>>::empty()));
    assert(path.take(1)[0] == path[0]);
    assert(seq!['/'].take(1) =~= seq!['/']);
    assert((path + seq!['/'] + name).take(1) =~= path.take(1));
    assert((path + seq!['/'] + seq!['.']).take(1) =~= path.take(1));
    assert((path + seq!['/'] + seq!['.', '.']).take(1) =~= path.take(1));
    assert((path + seq!['/']).take(1) =~= path.take(1));
}

proof fn lemma_absolute_push(parts: Seq<Seq<char>>, name: Seq<char>)
    requires
        parts.len() > 0,
    ensures
        absolute(parts.push(name)) == absolute(parts) + seq!['/'] + name,
{
    reveal_strlit("/");
    assert("/"@ =~= seq!['/']);
    assert(parts.push(name).drop_last() =~= parts);
    assert(absolute(parts.push(name)) =~= absolute(parts) + seq!['/'] + name);
}

/// The directory of garbage-collector roots is accepted as it is, and so is every directory
/// below one that is accepted, under the name that it has there.
pub proof fn law_directories_below_gc_roots_are_accepted(path: Seq<char>, name: Seq<char>)
    requires
        is_name(name),
    ensures
        gc_roots_dir_of("/nix/var/nix/gcroots"@) == Ok::<Seq<char>, Seq<char>>(
            "/nix/var/nix/gcroots"@,
        ),
        gc_roots_dir_of(path) matches Ok(dir) ==> gc_roots_dir_of(path + seq!['/'] + name) == Ok::<
            Seq<char>,
            Seq<char>,
        >(dir + seq!['/'] + name),
{
    reveal_strlit("/nix/var/nix/gcroots");
    reveal_strlit("nix");
    reveal_strlit("var");
    reveal_strlit("gcroots");
    reveal_strlit("/");
    reveal_strlit(".");
    reveal_strlit("..");
    let root = seq!['/'];
    let a = root + "nix"@;
    let b = a + seq!['/'] + "var"@;
    let c = b + seq!['/'] + "nix"@;
    let d = c + seq!['/'] + "gcroots"@;
    assert(d =~= "/nix/var/nix/gcroots"@);
    assert(is_name("nix"@) && is_name("var"@) && is_name("gcroots"@)) by {
        assert("nix"@.len() == 3 && "var"@.len() == 3 && "gcroots"@.len() == 7);
        assert("."@.len() == 1 && ".."@.len() == 2);
        assert forall|i: int| 0 <= i < 3 implies "nix"@[i] != '/' && "var"@[i] != '/' by {}
        assert forall|i: int| 0 <= i < 7 implies "gcroots"@[i] != '/' by {}
    }
    law_paths_are_made_of_their_names(root, "nix"@);
    law_absolute_paths_are_resolved(root, "nix"@);
    assert(normal_parts(a) == Ok::<Seq<Seq<char>>, Seq<char>>(seq!["nix"@])) by {
        let comps = components_of(a);
        assert(comps.drop_last() =~= seq![ComponentView::RootDir]);
        assert(seq![ComponentView::RootDir].drop_last() =~= Seq::empty());
        assert(resolved(Seq::empty()) == Some(Seq::<Seq<char>>::empty()));
        assert(resolved(seq![ComponentView::RootDir]) == Some(Seq::<Seq<char>>::empty()));
        assert(Seq::<Seq<char>>::empty().push("nix"@) =~= seq!["nix"@]);
        assert(a.take(1) =~= "/"@);
    }
    law_absolute_paths_are_resolved(a, "var"@);
    law_absolute_paths_are_resolved(b, "nix"@);
    law_absolute_paths_are_resolved(c, "gcroots"@);
    let one = seq!["nix"@];
    let parts = one.push("var"@).push("nix"@).push("gcroots"@);
    assert(parts.take(4) =~= gc_root_parts());
    assert(absolute(one) =~= a) by {
        assert("/"@ =~= root);
        assert(joined(one, "/"@) == "nix"@);
    }
    lemma_absolute_push(one, "var"@);
    lemma_absolute_push(one.push("var"@), "nix"@);
    lemma_absolute_push(one.push("var"@).push("nix"@), "gcroots"@);
    if let Ok(dir) = gc_roots_dir_of(path) {
        let found = normal_parts(path)->Ok_0;
        assert(path.len() > 0);
        law_absolute_paths_are_resolved(path, name);
        assert(found.push(name).take(4) =~= found.take(4));
        lemma_absolute_push(found, name);
    }
}

proof fn lemma_sorted_differ(sorted: Seq<Seq<char>>, paths: Seq<Seq<char>>, i: int, j: int)
    requires
        sorts_paths(sorted, paths),
        0 <= i < j < sorted.len(),
    ensures
        sorted[i] != sorted[j],
{
    lemma_lex_irreflexive(
        components_of(sorted[i]),
        |x: ComponentView, y: ComponentView| comp_less(x, y),
    );
    assert(comps_less(components_of(sorted[i]), components_of(sorted[j])));
}

/// Sorted paths are the paths that were given: each of them is one of those, no two of them are
/// the same, and of each that was given there is one with its components.
pub proof fn law_sorting_keeps_every_path_once(
    sorted: Seq<Seq<char>>,
    paths: Seq<Seq<char>>,
    j: int,
)
    requires
        sorts_paths(sorted, paths),
    ensures
        forall|i: int| 0 <= i < sorted.len() ==> paths.contains(#[trigger] sorted[i]),
        0 <= j < paths.len() ==> exists|i: int|
            0 <= i < sorted.len() && components_of(#[trigger] sorted[i]) == components_of(paths[j]),
        sorted.no_duplicates(),
{
    assert forall|i: int| 0 <= i < sorted.len() implies paths.contains(#[trigger] sorted[i]) by {
        assert(first_written(sorted[i], paths));
    }
    if 0 <= j < paths.len() {
        assert(has_comps(sorted, components_of(paths[j])));
    }
    assert forall|i: int, j: int| 0 <= i < sorted.len() && 0 <= j < sorted.len() && i != j implies
        sorted[i] != sorted[j] by {
        if i < j {
            lemma_sorted_differ(sorted, paths, i, j);
        } else {
            lemma_sorted_differ(sorted, paths, j, i);
        }
    }
}

/// A component says what it is, a directory contains what begins with its components, and paths
/// are ordered by their components: the root before the current directory, that before the one
/// above, and that before names, which are ordered as texts.
pub proof fn law_components_are_told_apart(
    name: String,
    other: Seq<char>,
    base: Seq<ComponentView>,
    rest: Seq<ComponentView>,
    comps: Seq<ComponentView>,
)
    ensures
        Component::RootDir@ == ComponentView::RootDir,
        Component::CurDir@ == ComponentView::CurDir,
        Component::ParentDir@ == ComponentView::ParentDir,
        Component::Normal(name)@ == ComponentView::Normal(name@),
        comps_prefix(base + rest, base),
        comps_prefix(comps, base) ==> comps == base + comps.skip(base.len() as int),
        comp_less(ComponentView::RootDir, ComponentView::CurDir),
        comp_less(ComponentView::CurDir, ComponentView::ParentDir),
        comp_less(ComponentView::ParentDir, ComponentView::Normal(other)),
        comp_less(ComponentView::Normal(name@), ComponentView::Normal(other)) <==> text_less(
            name@,
            other,
        ),
{
    assert((base + rest).take(base.len() as int) =~= base);
    if comps_prefix(comps, base) {
        assert(comps =~= comps.take(base.len() as int) + comps.skip(base.len() as int));
    }
}

proof fn lemma_resolved_without_parents(comps: Seq<ComponentView>)
    requires
        !comps.contains(ComponentView::ParentDir),
    ensures
        resolved(comps) is Some,
    decreases comps.len(),
{
    if comps.len() > 0 {
        assert forall|i: int| 0 <= i < comps.len() - 1 implies comps.drop_last()[i]
            != ComponentView::ParentDir by {
            assert(comps[i] != ComponentView::ParentDir);
        }
        lemma_resolved_without_parents(comps.drop_last());
        assert(comps[comps.len() - 1] != ComponentView::ParentDir);
    }
}

/// Every directory but those that stand at or below the garbage-collector roots is refused, and
/// the message says why: the path climbs over the root, does not begin at it, or stands
/// elsewhere.
pub proof fn law_other_directories_are_refused(path: Seq<char>)
    ensures
        path.len() > 0 && path[0] == '/' && normal_parts(path) is Err ==> normal_parts(path)
            == Err::<Seq<Seq<char>>, Seq<char>>("path escapes filesystem root: "@ + path),
        (path.len() == 0 || path[0] != '/') && !components_of(path).contains(
            ComponentView::ParentDir,
        ) ==> normal_parts(path) == Err::<Seq<Seq<char>>, Seq<char>>(
            "gc roots dir must be absolute: "@ + path,
        ),
        normal_parts(path) matches Err(e) ==> gc_roots_dir_of(path) == Err::<
            Seq<char>,
            Seq<char>,
        >(e),
        normal_parts(path) matches Ok(parts) ==> {
            let below = parts.len() >= 4 && parts[0] == "nix"@ && parts[1] == "var"@ && parts[2]
                == "nix"@ && parts[3] == "gcroots"@;
            &&& below ==> gc_roots_dir_of(path) is Ok
            &&& !below ==> gc_roots_dir_of(path) == Err::<Seq<char>, Seq<char>>(
                "gc roots dir must be under /nix/var/nix/gcroots: "@ + path,
            )
        },
{
    reveal_strlit("/");
    reveal_strlit("gc roots dir must be under ");
    reveal_strlit("/nix/var/nix/gcroots");
    reveal_strlit(": ");
    reveal_strlit("gc roots dir must be under /nix/var/nix/gcroots: ");
    assert("gc roots dir must be under "@ + "/nix/var/nix/gcroots"@ + ": "@
        =~= "gc roots dir must be under /nix/var/nix/gcroots: "@);
    assert("/"@ =~= seq!['/']);
    if path.len() > 0 {
        assert(path.take(1)[0] == path[0]);
        if path[0] == '/' {
            assert(path.take(1) =~= seq!['/']);
        }
    }
    if !components_of(path).contains(ComponentView::ParentDir) {
        lemma_resolved_without_parents(components_of(path));
    }
    if let Ok(parts) = normal_parts(path) {
        let root = seq!["nix"@, "var"@, "nix"@, "gcroots"@];
        if parts.len() >= 4 {
            let top = parts.take(4);
            assert(top[0] == parts[0] && top[1] == parts[1] && top[2] == parts[2] && top[3]
                == parts[3]);
            if parts[0] == "nix"@ && parts[1] == "var"@ && parts[2] == "nix"@ && parts[3]
                == "gcroots"@ {
                assert(top =~= root);
            }
        }
    }
}

/// A root is registered under the file name of its derivation, below the directory of roots, and
/// only where nothing stands yet; a directory that links lead elsewhere is refused.
pub proof fn law_roots_are_registered_once(
    dir: &str,
    drv_path: &str,
    canonical: &str,
    top: &str,
    cause: String,
    link: Result<String, ErrorChain>,
    present: Result<bool, ErrorChain>,
    missing: Result<bool, ErrorChain>,
    failed: Result<bool, ErrorChain>,
    checked: Result<(), ErrorChain>,
)
    requires
        call_ensures(gc_root_link, (dir, drv_path), link),
        call_ensures(create_gc_root_link, (dir, &Found::Present), present),
        call_ensures(create_gc_root_link, (dir, &Found::Missing), missing),
        call_ensures(create_gc_root_link, (dir, &Found::Failed(cause)), failed),
        call_ensures(check_resolved_gc_dir, (dir, canonical, top), checked),
    ensures
        file_name_of(drv_path@) matches Some(name) ==> (link matches Ok(path) && path@
            == joined_path(dir@, name)),
        file_name_of(drv_path@) is None ==> (link matches Err(e) && e@ == seq![
            "drv path has no filename"@,
        ]),
        present == Ok::<bool, ErrorChain>(false),
        missing == Ok::<bool, ErrorChain>(true),
        failed matches Err(e) && e@ == seq!["checking gc root "@ + dir@, cause@],
        checked is Ok <==> comps_prefix(components_of(canonical@), components_of(top@)),
        checked matches Err(e) ==> e@ == seq![
            "gc roots dir resolves outside "@ + "/nix/var/nix/gcroots"@ + ": "@ + dir@,
        ],
{
}

} // verus!
