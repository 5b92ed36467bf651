//! Relative paths between two paths.
use vstd::prelude::*;
use crate::join::{char_string, join_all, join_components, path_push, push_char, push_str_path};
use crate::path::{
    component_eq, components, copy_component, lemma_views_push, path_components, path_has_root,
    physical_root,
    same_component, segment_component, segment_components, segments, views, Component,
    ComponentView,
};
use crate::path_laws::{
    lemma_join_then_parse, lemma_path_components_shape, lemma_segments_single,
    lemma_segments_single_in, lemma_windows_join_then_parse, lemma_without_cur_append,
    valid_component, windows_plain, without_cur,
};
use crate::path::has_leading_cur_dir;
use crate::prefix::{
    lemma_parse_prefix_len, matches2, parse_prefix, windows_prefix, Platform, Prefix, PrefixView,
    SepStyle,
};

verus! {

/// The number of leading positions from `i` on where `a` and `b` agree, plus `i`.
pub open spec fn shared_from(a: Seq<ComponentView>, b: Seq<ComponentView>, i: int) -> int
    decreases a.len() - i,
{
    if 0 <= i < a.len() && i < b.len() && same_component(a[i], b[i]) {
        shared_from(a, b, i + 1)
    } else {
        i
    }
}

/// The length of the longest common prefix of two component sequences.
pub open spec fn shared_len(a: Seq<ComponentView>, b: Seq<ComponentView>) -> int {
    shared_from(a, b, 0)
}

/// Two component sequences name the same path: they have the same length and the
/// same component at every position.
pub open spec fn same_components(a: Seq<ComponentView>, b: Seq<ComponentView>) -> bool {
    a.len() == b.len() && shared_len(a, b) == a.len()
}

/// `n` parent-directory components.
pub open spec fn parent_dirs(n: int) -> Seq<ComponentView> {
    Seq::new(n as nat, |i: int| ComponentView::ParentDir)
}

/// The components of the way from `b` to `p`: one `..` for each component of `b`
/// after the shared prefix, then the components of `p` after it.
pub open spec fn relative_components(p: Seq<ComponentView>, b: Seq<ComponentView>) -> Seq<
    ComponentView,
> {
    let k = shared_len(p, b);
    parent_dirs(b.len() - k) + p.skip(k)
}

/// The path of `path` relative to `base`: `.` where both have the same components,
/// else the path joined from [`relative_components`].
pub open spec fn spec_relative_path(path: Seq<char>, base: Seq<char>, platform: Platform) -> Seq<
    char,
> {
    let p = path_components(path, platform);
    let b = path_components(base, platform);
    if same_components(p, b) {
        seq!['.']
    } else {
        join_components(relative_components(p, b), platform)
    }
}

/// The number of leading components on which `a` and `b` agree.
fn shared_count(a: &Vec<Component>, b: &Vec<Component>) -> (k: usize)
    ensures
        k == shared_len(views(a@), views(b@)),
        k <= a@.len(),
        k <= b@.len(),
{
    let ghost va = views(a@);
    let ghost vb = views(b@);
    let mut k: usize = 0;
    while k < a.len() && k < b.len() && component_eq(&a[k], &b[k])
        invariant
            k <= a@.len(),
            k <= b@.len(),
            va == views(a@),
            vb == views(b@),
            shared_from(va, vb, k as int) == shared_from(va, vb, 0),
        decreases a@.len() - k,
    {
        assert(same_component(va[k as int], vb[k as int]));
        k = k + 1;
    }
    k
}

/// The components from `b` to `p`, as in [`relative_components`].
fn relative_component_list(p: &Vec<Component>, b: &Vec<Component>, k: usize) -> (r: Vec<Component>)
    requires
        k == shared_len(views(p@), views(b@)),
        k <= p@.len(),
        k <= b@.len(),
    ensures
        views(r@) == relative_components(views(p@), views(b@)),
{
    let ghost vp = views(p@);
    let ghost rel = relative_components(vp, views(b@));
    let mut r: Vec<Component> = Vec::new();
    let up = b.len() - k;
    let mut i: usize = 0;
    while i < up
        invariant
            up == b@.len() - k,
            i <= up,
            views(r@) == rel.take(i as int),
            rel == parent_dirs(up as int) + vp.skip(k as int),
        decreases up - i,
    {
        let ghost before = r@;
        r.push(Component::ParentDir);
        proof {
            lemma_views_push(before, Component::ParentDir);
            assert(rel[i as int] == ComponentView::ParentDir);
        }
        assert(views(r@) =~= rel.take(i + 1));
        i = i + 1;
    }
    let mut j: usize = k;
    while j < p.len()
        invariant
            up == b@.len() - k,
            k <= j <= p@.len(),
            vp == views(p@),
            views(r@) == rel.take(up + j - k),
            rel == parent_dirs(up as int) + vp.skip(k as int),
        decreases p@.len() - j,
    {
        let ghost before = r@;
        let c = copy_component(&p[j]);
        r.push(c);
        proof {
            lemma_views_push(before, c);
        }
        assert(rel[up + j - k] == vp[j as int]);
        assert(views(r@) =~= rel.take(up + j - k + 1));
        j = j + 1;
    }
    assert(rel.take(up + p@.len() - k) =~= rel);
    r
}

/// On Windows, two paths that differ can only be related through their verbatim
/// forms, and an empty path has none.
pub open spec fn relative_path_panics(path: Seq<char>, base: Seq<char>, platform: Platform) -> bool {
    &&& platform is Windows
    &&& !same_components(path_components(path, platform), path_components(base, platform))
    &&& (path.len() == 0 || base.len() == 0)
}

/// Whether [`relative_path`] has no answer for these paths.
pub fn relative_path_fails(path: &str, base_path: &str, platform: Platform) -> (r: bool)
    ensures
        r == relative_path_panics(path@, base_path@, platform),
{
    match platform {
        Platform::Unix => false,
        Platform::Windows => !same_path(path, base_path, platform) && (path.unicode_len() == 0
            || base_path.unicode_len() == 0),
    }
}

/// The path of `path` relative to `base_path`, computed on their components. On
/// Windows the paths are compared as given; the caller turns them into their
/// verbatim forms first, which an empty path does not have.
pub fn relative_path(path: &str, base_path: &str, platform: Platform) -> (r: String)
    requires
        !relative_path_panics(path@, base_path@, platform),
    ensures
        r@ == spec_relative_path(path@, base_path@, platform),
{
    let p = components(path, platform);
    let b = components(base_path, platform);
    let k = shared_count(&p, &b);
    if k == p.len() && k == b.len() {
        return char_string('.');
    }
    let rel = relative_component_list(&p, &b, k);
    join_all(&rel, platform)
}

/// Whether two paths have the same components (`Path`'s `==`).
pub fn same_path(a: &str, b: &str, platform: Platform) -> (r: bool)
    ensures
        r == same_components(path_components(a@, platform), path_components(b@, platform)),
{
    let pa = components(a, platform);
    let pb = components(b, platform);
    let k = shared_count(&pa, &pb);
    k == pa.len() && k == pb.len()
}

/// Below the shared length the two sequences agree.
pub proof fn lemma_shared_prefix(a: Seq<ComponentView>, b: Seq<ComponentView>, i: int)
    requires
        0 <= i,
        forall|j: int| 0 <= j < i ==> same_component(a[j], b[j]),
        i <= a.len(),
        i <= b.len(),
    ensures
        i <= shared_from(a, b, i) <= a.len(),
        shared_from(a, b, i) <= b.len(),
        forall|j: int| 0 <= j < shared_from(a, b, i) ==> same_component(a[j], b[j]),
        shared_from(a, b, i) < a.len() && shared_from(a, b, i) < b.len() ==> !same_component(
            a[shared_from(a, b, i)],
            b[shared_from(a, b, i)],
        ),
    decreases a.len() - i,
{
    if i < a.len() && i < b.len() && same_component(a[i], b[i]) {
        lemma_shared_prefix(a, b, i + 1);
    }
}

/// A sequence shares all of itself with itself.
proof fn lemma_shared_self(a: Seq<ComponentView>, i: int)
    requires
        0 <= i <= a.len(),
    ensures
        shared_from(a, a, i) == a.len(),
    decreases a.len() - i,
{
    if i < a.len() {
        lemma_shared_self(a, i + 1);
    }
}


/// One step of walking a path lexically: a prefix or the root restarts the walk, `.` stays,
/// `..` leaves the last name (stays at the root; is kept where there is no name to
/// leave), and a name is entered.
pub open spec fn resolve_step(st: Seq<ComponentView>, c: ComponentView) -> Seq<ComponentView> {
    match c {
        ComponentView::Prefix(_, _) => seq![c],
        ComponentView::RootDir => seq![ComponentView::RootDir],
        ComponentView::CurDir => st,
        ComponentView::ParentDir => {
            if st.len() > 0 && st.last() is Normal {
                st.drop_last()
            } else if st.len() > 0 && st.last() is RootDir {
                st
            } else {
                st.push(ComponentView::ParentDir)
            }
        },
        ComponentView::Normal(_) => st.push(c),
    }
}

/// Walking the components `cs` from the position `st`.
pub open spec fn resolve_from(st: Seq<ComponentView>, cs: Seq<ComponentView>) -> Seq<
    ComponentView,
>
    decreases cs.len(),
{
    if cs.len() == 0 {
        st
    } else {
        resolve_step(resolve_from(st, cs.drop_last()), cs.last())
    }
}

/// The location that a sequence of components names lexically.
pub open spec fn resolve(cs: Seq<ComponentView>) -> Seq<ComponentView> {
    resolve_from(seq![], cs)
}

proof fn lemma_resolve_append(st: Seq<ComponentView>, x: Seq<ComponentView>, y: Seq<ComponentView>)
    ensures
        resolve_from(st, x + y) == resolve_from(resolve_from(st, x), y),
    decreases y.len(),
{
    if y.len() == 0 {
        assert(x + y =~= x);
    } else {
        assert((x + y).drop_last() =~= x + y.drop_last());
        lemma_resolve_append(st, x, y.drop_last());
    }
}

proof fn lemma_resolve_without_cur(st: Seq<ComponentView>, x: Seq<ComponentView>)
    ensures
        resolve_from(st, without_cur(x)) == resolve_from(st, x),
    decreases x.len(),
{
    if x.len() > 0 {
        lemma_resolve_without_cur(st, x.drop_last());
        if x.last() != ComponentView::CurDir {
            let w = without_cur(x.drop_last()).push(x.last());
            assert(w.drop_last() =~= without_cur(x.drop_last()));
        }
    }
}

proof fn lemma_resolve_names(st: Seq<ComponentView>, n: Seq<ComponentView>)
    requires
        forall|i: int| 0 <= i < n.len() ==> n[i] is Normal,
    ensures
        resolve_from(st, n) == st + n,
    decreases n.len(),
{
    if n.len() == 0 {
        assert(st + n =~= st);
    } else {
        lemma_resolve_names(st, n.drop_last());
        assert((st + n.drop_last()).push(n.last()) =~= st + n);
    }
}

proof fn lemma_resolve_climb(st: Seq<ComponentView>, n: Seq<ComponentView>, j: int)
    requires
        forall|i: int| 0 <= i < n.len() ==> n[i] is Normal,
        0 <= j <= n.len(),
    ensures
        resolve_from(st + n, parent_dirs(j)) == st + n.take(n.len() - j),
    decreases j,
{
    if j == 0 {
        assert(n.take(n.len() as int) =~= n);
    } else {
        assert(parent_dirs(j).drop_last() =~= parent_dirs(j - 1));
        lemma_resolve_climb(st, n, j - 1);
        let prev = st + n.take(n.len() - j + 1);
        assert(prev.last() == n[n.len() - j]);
        assert(prev.drop_last() =~= st + n.take(n.len() - j));
    }
}

/// Unix components hold no prefix, so the same components are equal ones.
proof fn lemma_same_is_equal(p: Seq<ComponentView>, b: Seq<ComponentView>, k: int)
    requires
        0 <= k <= p.len(),
        k <= b.len(),
        forall|j: int| 0 <= j < k ==> same_component(p[j], b[j]),
        forall|j: int| 0 <= j < p.len() ==> !(#[trigger] p[j] is Prefix),
    ensures
        p.take(k) =~= b.take(k),
{
    assert forall|j: int| 0 <= j < k implies p.take(k)[j] == b.take(k)[j] by {
        assert(same_component(p[j], b[j]));
        assert(!(p[j] is Prefix));
    }
}

/// The Unix path `.` has the single component `CurDir`.
proof fn lemma_dot_components()
    ensures
        path_components(seq!['.'], Platform::Unix) =~= seq![ComponentView::CurDir],
{
    let dot = seq!['.'];
    assert(has_leading_cur_dir(dot, Platform::Unix));
    lemma_segments_single(dot);
    assert(seq![dot].drop_last() =~= Seq::<Seq<char>>::empty());
    assert(seq![dot].last() == dot);
    assert(segment_component(dot, false) =~= Seq::<ComponentView>::empty());
    assert(segment_components(Seq::<Seq<char>>::empty(), false) =~= Seq::<ComponentView>::empty());
    assert(segment_components(seq![dot], false) =~= Seq::<ComponentView>::empty());
}

/// A Unix path that starts with a `.` of its own has `CurDir` first.
proof fn lemma_leading_cur_first(s: Seq<char>)
    requires
        has_leading_cur_dir(s, Platform::Unix),
    ensures
        path_components(s, Platform::Unix).len() > 0,
        path_components(s, Platform::Unix)[0] == ComponentView::CurDir,
{
    assert(!physical_root(s, Platform::Unix));
}

/// The relative path of `path` from `base`, walked from `base`, arrives where `path`
/// does (Unix paths). This holds where `base` names no `..`, starts with `.` only
/// where `path` does too, and the two paths are both rooted or both not.
pub proof fn lemma_relative_path_leads_to_path(path: Seq<char>, base: Seq<char>)
    requires
        path_has_root(path, Platform::Unix) == path_has_root(base, Platform::Unix),
        forall|i: int|
            0 <= i < path_components(base, Platform::Unix).len() ==> {
                let c = #[trigger] path_components(base, Platform::Unix)[i];
                c is RootDir || c is Normal || (c is CurDir && has_leading_cur_dir(
                    path,
                    Platform::Unix,
                ))
            },
    ensures
        resolve(
            path_components(base, Platform::Unix) + path_components(
                spec_relative_path(path, base, Platform::Unix),
                Platform::Unix,
            ),
        ) == resolve(path_components(path, Platform::Unix)),
{
    let p = path_components(path, Platform::Unix);
    let b = path_components(base, Platform::Unix);
    lemma_path_components_shape(path);
    lemma_path_components_shape(base);
    let rel_text = spec_relative_path(path, base, Platform::Unix);
    let k = shared_len(p, b);
    lemma_shared_prefix(p, b, 0);
    lemma_same_is_equal(p, b, k);
    if same_components(p, b) {
        assert(p.take(k) =~= p);
        assert(b.take(k) =~= b);
        assert(rel_text == seq!['.']);
        lemma_dot_components();
        lemma_resolve_append(seq![], b, seq![ComponentView::CurDir]);
        let cur = seq![ComponentView::CurDir];
        assert(cur.drop_last() =~= Seq::<ComponentView>::empty());
        assert(cur.last() == ComponentView::CurDir);
        assert(resolve_from(resolve(b), Seq::<ComponentView>::empty()) == resolve(b));
        assert(resolve_from(resolve(b), cur) == resolve_step(resolve(b), ComponentView::CurDir));
        return;
    }
    let rel = relative_components(p, b);
    let brest = b.skip(k);
    let prest = p.skip(k);
    let shared = p.take(k);
    if path_has_root(path, Platform::Unix) {
        assert(k >= 1);
    }
    if b.len() > 0 && b[0] is CurDir {
        lemma_leading_cur_first(path);
        assert(same_component(p[0], b[0]));
        assert(k >= 1);
    }
    assert forall|i: int| 0 <= i < rel.len() implies valid_component(#[trigger] rel[i]) && !(
    rel[i] is RootDir) by {
        if i >= b.len() - k {
            assert(rel[i] == p[k + i - (b.len() - k)]);
        }
    }
    assert forall|i: int| 0 <= i < brest.len() implies brest[i] is Normal by {
        assert(brest[i] == b[k + i]);
        if b[k + i] is CurDir {
            assert(k + i == 0);
        }
    }
    // The text of the relative path parses back to its components, up to `.`.
    lemma_join_then_parse(rel);
    let joined = join_components(rel, Platform::Unix);
    assert(rel_text == joined);
    let cur = if has_leading_cur_dir(joined, Platform::Unix) {
        seq![ComponentView::CurDir]
    } else {
        seq![]
    };
    let segs = segment_components(segments(joined, SepStyle::Slash), false);
    assert(path_components(joined, Platform::Unix) =~= cur + segs);
    assert(without_cur(cur) =~= Seq::<ComponentView>::empty()) by {
        if cur.len() == 1 {
            assert(cur.last() == ComponentView::CurDir);
            assert(cur.drop_last() =~= Seq::<ComponentView>::empty());
            assert(without_cur(Seq::<ComponentView>::empty()) =~= Seq::<ComponentView>::empty());
        }
    }
    let pj = path_components(joined, Platform::Unix);
    assert(without_cur(pj) == without_cur(rel)) by {
        lemma_without_cur_append(cur, segs);
        lemma_without_cur_idempotent(rel);
        assert(without_cur(cur) + without_cur(without_cur(rel)) =~= without_cur(rel));
    }
    let rb = resolve(b);
    lemma_resolve_append(seq![], b, pj);
    lemma_resolve_without_cur(rb, pj);
    lemma_resolve_without_cur(rb, rel);
    lemma_resolve_append(seq![], b, rel);
    // Walking the base and then the relative components.
    assert(b =~= shared + brest);
    assert(rel =~= parent_dirs(brest.len() as int) + prest);
    let rs = resolve(shared);
    lemma_resolve_append(seq![], shared, brest);
    lemma_resolve_names(rs, brest);
    lemma_resolve_append(rb, parent_dirs(brest.len() as int), prest);
    lemma_resolve_climb(rs, brest, brest.len() as int);
    assert(brest.take(0) =~= Seq::<ComponentView>::empty());
    assert(rs + brest.take(0) =~= rs);
    lemma_resolve_append(seq![], shared, prest);
    assert(p =~= shared + prest);
}

/// For two Unix paths whose components differ (both rooted or both not), the
/// relative path climbs one `..` for each component of `base` after the longest
/// common leading run `k` of components, then names the components of `path` after
/// it: this is what its text parses back to, `.` left out.
pub proof fn lemma_relative_path_components(path: Seq<char>, base: Seq<char>)
    requires
        path_has_root(path, Platform::Unix) == path_has_root(base, Platform::Unix),
        !same_components(path_components(path, Platform::Unix), path_components(base, Platform::Unix)),
    ensures
        ({
            let p = path_components(path, Platform::Unix);
            let b = path_components(base, Platform::Unix);
            let k = shared_len(p, b);
            &&& 0 <= k <= p.len()
            &&& k <= b.len()
            &&& forall|j: int| 0 <= j < k ==> p[j] == b[j]
            &&& (k < p.len() && k < b.len() ==> p[k] != b[k])
            &&& without_cur(
                path_components(spec_relative_path(path, base, Platform::Unix), Platform::Unix),
            ) == without_cur(
                Seq::new((b.len() - k) as nat, |i: int| ComponentView::ParentDir) + p.skip(k),
            )
        }),
{
    let p = path_components(path, Platform::Unix);
    let b = path_components(base, Platform::Unix);
    lemma_path_components_shape(path);
    lemma_path_components_shape(base);
    let k = shared_len(p, b);
    lemma_shared_prefix(p, b, 0);
    lemma_same_is_equal(p, b, k);
    assert forall|j: int| 0 <= j < k implies p[j] == b[j] by {
        assert(p.take(k)[j] == b.take(k)[j]);
    }
    if k < p.len() && k < b.len() {
        assert(!same_component(p[k], b[k]));
        assert(!(p[k] is Prefix));
    }
    let rel = relative_components(p, b);
    if path_has_root(path, Platform::Unix) {
        assert(k >= 1);
    }
    assert forall|i: int| 0 <= i < rel.len() implies valid_component(#[trigger] rel[i]) && !(
    rel[i] is RootDir) by {
        if i >= b.len() - k {
            assert(rel[i] == p[k + i - (b.len() - k)]);
        }
    }
    lemma_join_then_parse(rel);
    let joined = join_components(rel, Platform::Unix);
    assert(spec_relative_path(path, base, Platform::Unix) == joined);
    let cur = if has_leading_cur_dir(joined, Platform::Unix) {
        seq![ComponentView::CurDir]
    } else {
        seq![]
    };
    let segs = segment_components(segments(joined, SepStyle::Slash), false);
    assert(path_components(joined, Platform::Unix) =~= cur + segs);
    assert(without_cur(cur) =~= Seq::<ComponentView>::empty()) by {
        if cur.len() == 1 {
            assert(cur.last() == ComponentView::CurDir);
            assert(cur.drop_last() =~= Seq::<ComponentView>::empty());
            assert(without_cur(Seq::<ComponentView>::empty()) =~= Seq::<ComponentView>::empty());
        }
    }
    lemma_without_cur_append(cur, segs);
    lemma_without_cur_idempotent(rel);
    assert(without_cur(cur) + without_cur(without_cur(rel)) =~= without_cur(rel));
    assert(rel =~= Seq::new((b.len() - k) as nat, |i: int| ComponentView::ParentDir) + p.skip(k));
}

/// Segment components are never a root or a prefix.
proof fn lemma_segment_components_plain(segs: Seq<Seq<char>>, verbatim: bool)
    ensures
        forall|i: int|
            0 <= i < segment_components(segs, verbatim).len() ==> {
                let c = #[trigger] segment_components(segs, verbatim)[i];
                !(c is RootDir) && !(c is Prefix)
            },
    decreases segs.len(),
{
    if segs.len() > 0 {
        lemma_segment_components_plain(segs.drop_last(), verbatim);
    }
}

/// In a Windows path a prefix or a root comes only first or second.
proof fn lemma_windows_lead(s: Seq<char>)
    ensures
        forall|i: int|
            0 <= i < path_components(s, Platform::Windows).len() && (path_components(
                s,
                Platform::Windows,
            )[i] is RootDir || path_components(s, Platform::Windows)[i] is Prefix) ==> i <= 1,
{
    let st = crate::path::path_style(s, Platform::Windows);
    let v = crate::path::path_verbatim(s, Platform::Windows);
    let rest = crate::path::path_rest(s, Platform::Windows);
    let segs = segment_components(segments(rest, st), v);
    lemma_segment_components_plain(segments(rest, st), v);
    let p = path_components(s, Platform::Windows);
    let lead_len = p.len() - segs.len();
    assert forall|i: int|
        0 <= i < p.len() && (p[i] is RootDir || p[i] is Prefix) implies i <= 1 by {
        if i >= lead_len {
            assert(p[i] == segs[i - lead_len]);
        } else if i == 2 {
            assert(p[i] is CurDir);
        }
    }
}

/// `.` on Windows has the single component `CurDir`.
proof fn lemma_windows_dot_components()
    ensures
        path_components(seq!['.'], Platform::Windows) =~= seq![ComponentView::CurDir],
{
    let dot = seq!['.'];
    lemma_windows_join_then_parse(seq![ComponentView::CurDir]);
    assert(parse_prefix(dot) is None) by {
        assert(!matches2(dot, 0, '\\', '\\'));
    }
    assert(has_leading_cur_dir(dot, Platform::Windows));
    lemma_segments_single_in(dot, SepStyle::SlashOrBackslash);
    assert(seq![dot].drop_last() =~= Seq::<Seq<char>>::empty());
    assert(seq![dot].last() == dot);
    assert(segment_component(dot, false) =~= Seq::<ComponentView>::empty());
    assert(segment_components(Seq::<Seq<char>>::empty(), false) =~= Seq::<ComponentView>::empty());
    assert(segment_components(seq![dot], false) =~= Seq::<ComponentView>::empty());
}

/// A prefix and then a root walk to the bare root.
proof fn lemma_resolve_prefix_root(x: Seq<ComponentView>)
    requires
        x.len() == 2,
        x[0] is Prefix,
        x[1] is RootDir,
    ensures
        resolve(x) == seq![ComponentView::RootDir],
{
    assert(x.drop_last().drop_last() =~= Seq::<ComponentView>::empty());
    assert(x.drop_last().last() == x[0]);
    assert(x.last() == x[1]);
}

/// On Windows, the relative path of `path` from `base`, walked from `base`, arrives
/// where `path` does. This holds where both paths start with the same prefix and a
/// root, `base` names no `.` and no `..`, and every name of `path` reads back from
/// Windows text as itself (no `/`, `\` or `:` in it).
pub proof fn lemma_windows_relative_path_leads_to_path(path: Seq<char>, base: Seq<char>)
    requires
        path_components(path, Platform::Windows).len() >= 2,
        path_components(base, Platform::Windows).len() >= 2,
        path_components(path, Platform::Windows)[0] is Prefix,
        same_component(
            path_components(path, Platform::Windows)[0],
            path_components(base, Platform::Windows)[0],
        ),
        path_components(path, Platform::Windows)[1] is RootDir,
        path_components(base, Platform::Windows)[1] is RootDir,
        forall|i: int|
            2 <= i < path_components(base, Platform::Windows).len() ==> (#[trigger] path_components(
                base,
                Platform::Windows,
            )[i]) is Normal,
        forall|i: int|
            2 <= i < path_components(path, Platform::Windows).len() && (#[trigger] path_components(
                path,
                Platform::Windows,
            )[i]) is Normal ==> windows_plain(path_components(path, Platform::Windows)[i]),
    ensures
        resolve(
            path_components(base, Platform::Windows) + path_components(
                spec_relative_path(path, base, Platform::Windows),
                Platform::Windows,
            ),
        ) == resolve(path_components(path, Platform::Windows)),
{
    let w = Platform::Windows;
    let p = path_components(path, w);
    let b = path_components(base, w);
    lemma_windows_lead(path);
    lemma_windows_lead(base);
    lemma_windows_walk(p, b);
    if same_components(p, b) {
        assert(spec_relative_path(path, base, w) == seq!['.']);
        lemma_windows_dot_components();
        let cur = seq![ComponentView::CurDir];
        lemma_resolve_append(seq![], b, cur);
        assert(cur.drop_last() =~= Seq::<ComponentView>::empty());
        assert(cur.last() == ComponentView::CurDir);
        assert(resolve_from(resolve(b), Seq::<ComponentView>::empty()) == resolve(b));
        assert(resolve_from(resolve(b), cur) == resolve_step(resolve(b), ComponentView::CurDir));
    }
}

/// The walk of [`lemma_windows_relative_path_leads_to_path`], over components.
proof fn lemma_windows_walk(p: Seq<ComponentView>, b: Seq<ComponentView>)
    requires
        p.len() >= 2,
        b.len() >= 2,
        p[0] is Prefix,
        same_component(p[0], b[0]),
        p[1] is RootDir,
        b[1] is RootDir,
        forall|i: int| 2 <= i < b.len() ==> (#[trigger] b[i]) is Normal,
        forall|i: int| 0 <= i < p.len() && (p[i] is RootDir || p[i] is Prefix) ==> i <= 1,
        forall|i: int| 0 <= i < b.len() && (b[i] is RootDir || b[i] is Prefix) ==> i <= 1,
        forall|i: int| 2 <= i < p.len() && (#[trigger] p[i]) is Normal ==> windows_plain(p[i]),
    ensures
        same_components(p, b) ==> resolve(b) == resolve(p),
        !same_components(p, b) ==> resolve(
            b + path_components(join_components(relative_components(p, b), Platform::Windows), Platform::Windows),
        ) == resolve(p),
{
    let w = Platform::Windows;
    let root = seq![ComponentView::RootDir];
    // Both walks start at the bare root after their prefix and root.
    let p2 = p.skip(2);
    let b2 = b.skip(2);
    assert(p =~= p.take(2) + p2);
    assert(b =~= b.take(2) + b2);
    lemma_resolve_prefix_root(p.take(2));
    lemma_resolve_prefix_root(b.take(2));
    lemma_resolve_append(seq![], p.take(2), p2);
    lemma_resolve_append(seq![], b.take(2), b2);
    assert(resolve(p) == resolve_from(root, p2));
    assert(resolve(b) == resolve_from(root, b2));
    // The shared prefix covers the prefix and the root, and is equal after them.
    assert(same_component(p[1], b[1]));
    lemma_shared_prefix_from(p, b, 2);
    lemma_shared_prefix(p, b, 2);
    let k = shared_len(p, b);
    assert(k >= 2);
    assert forall|j: int| 2 <= j < k implies p[j] == b[j] by {
        assert(same_component(p[j], b[j]));
        assert(!(p[j] is Prefix));
    }
    if same_components(p, b) {
        assert(p2 =~= b2);
        return;
    }
    let rel = relative_components(p, b);
    let brest = b.skip(k);
    let prest = p.skip(k);
    let shared = p.skip(2).take(k - 2);
    assert(b2 =~= shared + brest);
    assert(p2 =~= shared + prest);
    assert forall|i: int| 0 <= i < rel.len() implies windows_plain(#[trigger] rel[i]) by {
        if i >= b.len() - k {
            let j = k + i - (b.len() - k);
            assert(rel[i] == p[j]);
            assert(!(p[j] is RootDir) && !(p[j] is Prefix));
        }
    }
    assert forall|i: int| 0 <= i < brest.len() implies brest[i] is Normal by {
        assert(brest[i] == b[k + i]);
    }
    lemma_windows_text_walks_like_components(b, rel);
    // Walking the base and then the relative components, from the root.
    assert(rel =~= parent_dirs(brest.len() as int) + prest);
    let rb = resolve(b);
    lemma_resolve_append(seq![], b, rel);
    lemma_walk_back(root, shared, brest, prest);
    lemma_resolve_append(root, shared + brest, rel);
}

/// Walking names and as many `..` returns to where the walk started.
proof fn lemma_walk_back(
    st: Seq<ComponentView>,
    shared: Seq<ComponentView>,
    brest: Seq<ComponentView>,
    prest: Seq<ComponentView>,
)
    requires
        forall|i: int| 0 <= i < brest.len() ==> brest[i] is Normal,
    ensures
        resolve_from(resolve_from(st, shared + brest), parent_dirs(brest.len() as int) + prest)
            == resolve_from(st, shared + prest),
{
    let rs = resolve_from(st, shared);
    lemma_resolve_append(st, shared, brest);
    lemma_resolve_names(rs, brest);
    lemma_resolve_append(rs + brest, parent_dirs(brest.len() as int), prest);
    lemma_resolve_climb(rs, brest, brest.len() as int);
    assert(brest.take(0) =~= Seq::<ComponentView>::empty());
    assert(rs + brest.take(0) =~= rs);
    lemma_resolve_append(st, shared, prest);
}

/// After any components, the Windows text of plain components walks as they do.
proof fn lemma_windows_text_walks_like_components(b: Seq<ComponentView>, rel: Seq<ComponentView>)
    requires
        forall|i: int| 0 <= i < rel.len() ==> windows_plain(#[trigger] rel[i]),
    ensures
        resolve(b + path_components(join_components(rel, Platform::Windows), Platform::Windows))
            == resolve(b + rel),
{
    let w = Platform::Windows;
    lemma_windows_join_then_parse(rel);
    let joined = join_components(rel, w);
    let cur = if has_leading_cur_dir(joined, w) {
        seq![ComponentView::CurDir]
    } else {
        seq![]
    };
    let segs = segment_components(segments(joined, SepStyle::SlashOrBackslash), false);
    assert(path_components(joined, w) =~= cur + segs);
    assert(without_cur(cur) =~= Seq::<ComponentView>::empty()) by {
        if cur.len() == 1 {
            assert(cur.last() == ComponentView::CurDir);
            assert(cur.drop_last() =~= Seq::<ComponentView>::empty());
            assert(without_cur(Seq::<ComponentView>::empty()) =~= Seq::<ComponentView>::empty());
        }
    }
    let pj = path_components(joined, w);
    assert(without_cur(pj) == without_cur(rel)) by {
        lemma_without_cur_append(cur, segs);
        lemma_without_cur_idempotent(rel);
        assert(without_cur(cur) + without_cur(without_cur(rel)) =~= without_cur(rel));
    }
    let rb = resolve(b);
    lemma_resolve_append(seq![], b, pj);
    lemma_resolve_without_cur(rb, pj);
    lemma_resolve_without_cur(rb, rel);
    lemma_resolve_append(seq![], b, rel);
}

/// A path relative to itself is `.`.
pub proof fn lemma_relative_path_to_itself(path: Seq<char>, platform: Platform)
    ensures
        spec_relative_path(path, path, platform) == seq!['.'],
{
    lemma_shared_self(path_components(path, platform), 0);
}

/// A path below the base is reached by its components after the base's, without
/// any `..`.
pub proof fn lemma_relative_path_of_descendant(path: Seq<char>, base: Seq<char>, platform: Platform)
    requires
        path_components(base, platform).len() < path_components(path, platform).len(),
        path_components(path, platform).take(path_components(base, platform).len() as int)
            == path_components(base, platform),
    ensures
        spec_relative_path(path, base, platform) == join_components(
            path_components(path, platform).skip(path_components(base, platform).len() as int),
            platform,
        ),
{
    let p = path_components(path, platform);
    let b = path_components(base, platform);
    assert forall|j: int| 0 <= j < b.len() implies same_component(p[j], b[j]) by {
        assert(p.take(b.len() as int)[j] == p[j]);
    }
    lemma_shared_prefix(p, b, b.len() as int);
    assert(shared_from(p, b, b.len() as int) == b.len());
    lemma_shared_prefix_from(p, b, b.len() as int);
    assert(!same_components(p, b));
    assert(parent_dirs(0) + p.skip(b.len() as int) =~= p.skip(b.len() as int));
}

/// Where the two sequences agree below `i`, the shared length from 0 is the one from `i`.
proof fn lemma_shared_prefix_from(a: Seq<ComponentView>, b: Seq<ComponentView>, i: int)
    requires
        0 <= i <= a.len(),
        i <= b.len(),
        forall|j: int| 0 <= j < i ==> same_component(a[j], b[j]),
    ensures
        shared_from(a, b, 0) == shared_from(a, b, i),
    decreases i,
{
    if i > 0 {
        lemma_shared_prefix_from(a, b, i - 1);
    }
}

proof fn lemma_without_cur_idempotent(x: Seq<ComponentView>)
    ensures
        without_cur(without_cur(x)) == without_cur(x),
        forall|i: int| 0 <= i < without_cur(x).len() ==> !(#[trigger] without_cur(x)[i] is CurDir),
    decreases x.len(),
{
    if x.len() > 0 {
        lemma_without_cur_idempotent(x.drop_last());
        if x.last() != ComponentView::CurDir {
            let w = without_cur(x.drop_last()).push(x.last());
            assert(w.drop_last() =~= without_cur(x.drop_last()));
        }
    }
}

/// Why a path has no verbatim form.
pub enum VerbatimError {
    /// The path is empty.
    EmptyPath,
}

/// Checks that a path can be given a verbatim form: an empty path cannot.
pub fn verbatim_input_check(path: &str) -> (r: Result<(), VerbatimError>)
    ensures
        r is Err <==> path@.len() == 0,
{
    if path.unicode_len() == 0 {
        Err(VerbatimError::EmptyPath)
    } else {
        Ok(())
    }
}

/// `\\?\`, which starts every verbatim path.
pub open spec fn verbatim_start() -> Seq<char> {
    seq!['\\', '\\', '?', '\\']
}

/// The verbatim form (`\\?\...`) of an absolute Windows path: a drive or device gets
/// `\\?\` before it and a server share `\\?\UNC\` (with a root where nothing follows
/// the share), the rest of the path pushed after it; a verbatim path stays as it is,
/// but gains a root where a verbatim server share has nothing after it.
pub open spec fn spec_verbatim_path(abs: Seq<char>) -> Seq<char> {
    match parse_prefix(abs) {
        Some((k, n)) => {
            let rest = abs.skip(n);
            match k {
                PrefixView::DeviceNS(d) => path_push(verbatim_start() + d, rest, Platform::Windows),
                PrefixView::Disk(_) => path_push(
                    verbatim_start() + abs.take(n),
                    rest,
                    Platform::Windows,
                ),
                PrefixView::UNC(server, share) => {
                    let base = verbatim_start() + seq!['U', 'N', 'C', '\\'] + server + seq!['\\']
                        + share;
                    let residual = if path_components(rest, Platform::Windows).len() == 0 {
                        seq!['\\']
                    } else {
                        rest
                    };
                    path_push(base, residual, Platform::Windows)
                },
                PrefixView::VerbatimUNC(_, _) => if path_components(abs, Platform::Windows).len()
                    == 1 {
                    path_push(abs, seq!['\\'], Platform::Windows)
                } else {
                    abs
                },
                _ => abs,
            }
        },
        None => abs,
    }
}

fn verbatim_start_string() -> (r: String)
    ensures
        r@ == verbatim_start(),
{
    let mut r = String::new();
    push_char(&mut r, '\\');
    push_char(&mut r, '\\');
    push_char(&mut r, '?');
    push_char(&mut r, '\\');
    assert(r@ =~= verbatim_start());
    r
}

/// The verbatim form of an absolute Windows path, which starts with a prefix.
pub fn verbatim_path(abs: &str) -> (r: String)
    requires
        parse_prefix(abs@) is Some,
    ensures
        r@ == spec_verbatim_path(abs@),
{
    let n = abs.unicode_len();
    proof {
        lemma_parse_prefix_len(abs@);
    }
    let (k, plen) = windows_prefix(abs).unwrap();
    let rest = abs.substring_char(plen, n);
    assert(rest@ =~= abs@.skip(plen as int));
    match k {
        Prefix::DeviceNS(d) => {
            let mut base = verbatim_start_string();
            base.append(d.as_str());
            push_str_path(&mut base, rest, Platform::Windows);
            base
        },
        Prefix::Disk(_) => {
            let mut base = verbatim_start_string();
            base.append(abs.substring_char(0, plen));
            push_str_path(&mut base, rest, Platform::Windows);
            base
        },
        Prefix::UNC(server, share) => {
            let mut base = verbatim_start_string();
            push_char(&mut base, 'U');
            push_char(&mut base, 'N');
            push_char(&mut base, 'C');
            push_char(&mut base, '\\');
            base.append(server.as_str());
            push_char(&mut base, '\\');
            base.append(share.as_str());
            assert(base@ =~= verbatim_start() + seq!['U', 'N', 'C', '\\'] + server@ + seq!['\\']
                + share@);
            if components(rest, Platform::Windows).len() == 0 {
                let root = char_string('\\');
                push_str_path(&mut base, root.as_str(), Platform::Windows);
            } else {
                push_str_path(&mut base, rest, Platform::Windows);
            }
            base
        },
        Prefix::VerbatimUNC(_, _) => {
            let mut r = String::from_str(abs);
            if components(abs, Platform::Windows).len() == 1 {
                let root = char_string('\\');
                push_str_path(&mut r, root.as_str(), Platform::Windows);
            }
            r
        },
        _ => String::from_str(abs),
    }
}

} // verus!
