//! Paths as character sequences, with their components, on Unix and on Windows.
use vstd::prelude::*;
use crate::prefix::{
    is_sep, is_sep_char, path_prefix, prefix_info, prefix_is_verbatim, lemma_parse_prefix_len,
    Platform, Prefix, PrefixView, SepStyle,
};

verus! {

/// The mathematical form of a path component.
pub enum ComponentView {
    /// A Windows prefix: what it is, and its text.
    Prefix(PrefixView, Seq<char>),
    RootDir,
    CurDir,
    ParentDir,
    Normal(Seq<char>),
}

/// A component of a path, as produced by [`components`].
pub enum Component {
    Prefix(Prefix, String),
    RootDir,
    CurDir,
    ParentDir,
    Normal(String),
}

impl View for Component {
    type V = ComponentView;

    open spec fn view(&self) -> ComponentView {
        match self {
            Component::Prefix(k, t) => ComponentView::Prefix(k@, t@),
            Component::RootDir => ComponentView::RootDir,
            Component::CurDir => ComponentView::CurDir,
            Component::ParentDir => ComponentView::ParentDir,
            Component::Normal(s) => ComponentView::Normal(s@),
        }
    }
}

/// The views of a sequence of components.
pub open spec fn views(cs: Seq<Component>) -> Seq<ComponentView> {
    Seq::new(cs.len(), |i: int| cs[i]@)
}

pub proof fn lemma_views_push(cs: Seq<Component>, c: Component)
    ensures
        views(cs.push(c)) == views(cs).push(c@),
{
    assert(views(cs.push(c)) =~= views(cs).push(c@));
}

/// Two components are the same: prefixes by what they are (`c:` and `C:` are the
/// same drive), the others exactly.
pub open spec fn same_component(a: ComponentView, b: ComponentView) -> bool {
    match (a, b) {
        (ComponentView::Prefix(x, _), ComponentView::Prefix(y, _)) => x == y,
        _ => a == b,
    }
}

/// The pieces of `s` between separators, in order (`"/a//b"` gives `"", "a", "", "b"`).
pub open spec fn segments(s: Seq<char>, style: SepStyle) -> Seq<Seq<char>>
    decreases s.len(),
{
    if s.len() == 0 {
        seq![Seq::empty()]
    } else {
        let segs = segments(s.drop_last(), style);
        if is_sep(style, s.last()) {
            segs.push(Seq::empty())
        } else {
            segs.update(segs.len() - 1, segs.last().push(s.last()))
        }
    }
}

/// The component that one segment contributes: none for an empty segment, none for
/// `.` unless after a verbatim prefix.
pub open spec fn segment_component(seg: Seq<char>, verbatim: bool) -> Seq<ComponentView> {
    if seg.len() == 0 {
        seq![]
    } else if seg == seq!['.'] {
        if verbatim {
            seq![ComponentView::CurDir]
        } else {
            seq![]
        }
    } else if seg == seq!['.', '.'] {
        seq![ComponentView::ParentDir]
    } else {
        seq![ComponentView::Normal(seg)]
    }
}

pub open spec fn segment_components(segs: Seq<Seq<char>>, verbatim: bool) -> Seq<ComponentView>
    decreases segs.len(),
{
    if segs.len() == 0 {
        seq![]
    } else {
        segment_components(segs.drop_last(), verbatim) + segment_component(segs.last(), verbatim)
    }
}

/// The path has a verbatim prefix.
pub open spec fn path_verbatim(s: Seq<char>, platform: Platform) -> bool {
    prefix_info(s, platform) matches Some((k, _)) && prefix_is_verbatim(k)
}

/// The separators of the path after its prefix.
pub open spec fn path_style(s: Seq<char>, platform: Platform) -> SepStyle {
    match platform {
        Platform::Unix => SepStyle::Slash,
        Platform::Windows => if path_verbatim(s, platform) {
            SepStyle::Backslash
        } else {
            SepStyle::SlashOrBackslash
        },
    }
}

/// The length of the path's prefix.
pub open spec fn prefix_len(s: Seq<char>, platform: Platform) -> int {
    match prefix_info(s, platform) {
        Some((_, n)) => n,
        None => 0,
    }
}

/// The path after its prefix.
pub open spec fn path_rest(s: Seq<char>, platform: Platform) -> Seq<char> {
    match prefix_info(s, platform) {
        Some((_, n)) => s.skip(n),
        None => s,
    }
}

/// A separator follows the prefix.
pub open spec fn physical_root(s: Seq<char>, platform: Platform) -> bool {
    let rest = path_rest(s, platform);
    rest.len() > 0 && is_sep(path_style(s, platform), rest[0])
}

/// The path has a root: a separator after the prefix, or a prefix other than a drive.
pub open spec fn path_has_root(s: Seq<char>, platform: Platform) -> bool {
    ||| physical_root(s, platform)
    ||| prefix_info(s, platform) matches Some((k, _)) && !(k is Disk)
}

/// The path does not depend on a current directory.
pub open spec fn path_is_absolute(s: Seq<char>, platform: Platform) -> bool {
    match platform {
        Platform::Unix => path_has_root(s, platform),
        Platform::Windows => path_has_root(s, platform) && prefix_info(s, platform) is Some,
    }
}

/// The path has no prefix and no root and starts with a `.` of its own, kept as
/// `CurDir`.
pub open spec fn has_leading_cur_dir(s: Seq<char>, platform: Platform) -> bool {
    let rest = path_rest(s, platform);
    &&& prefix_info(s, platform) is None
    &&& !path_has_root(s, platform)
    &&& rest.len() > 0
    &&& rest[0] == '.'
    &&& (rest.len() == 1 || is_sep(path_style(s, platform), rest[1]))
}

/// The components of a path: its prefix, its root (written, or implied by a prefix
/// that is neither a drive nor verbatim), a leading `.`, then one component for each
/// segment of the rest that is neither empty nor `.` (kept after a verbatim prefix).
pub open spec fn path_components(s: Seq<char>, platform: Platform) -> Seq<ComponentView> {
    let pre = match prefix_info(s, platform) {
        Some((k, n)) => seq![ComponentView::Prefix(k, s.take(n))],
        None => seq![],
    };
    let implied_root = prefix_info(s, platform) matches Some((k, _)) && !(k is Disk)
        && !prefix_is_verbatim(k);
    let root = if physical_root(s, platform) || implied_root {
        seq![ComponentView::RootDir]
    } else {
        seq![]
    };
    let cur = if has_leading_cur_dir(s, platform) {
        seq![ComponentView::CurDir]
    } else {
        seq![]
    };
    pre + root + cur + segment_components(
        segments(path_rest(s, platform), path_style(s, platform)),
        path_verbatim(s, platform),
    )
}

pub proof fn lemma_segments_nonempty(s: Seq<char>, style: SepStyle)
    ensures
        segments(s, style).len() >= 1,
    decreases s.len(),
{
    if s.len() > 0 {
        lemma_segments_nonempty(s.drop_last(), style);
    }
}

/// Appending a character to a path either opens a new segment or extends the last.
proof fn lemma_segments_step(s: Seq<char>, i: int, start: int, style: SepStyle)
    requires
        0 <= start <= i < s.len(),
        segments(s.take(i), style).last() == s.subrange(start, i),
    ensures
        is_sep(style, s[i]) ==> segments(s.take(i + 1), style) == segments(s.take(i), style).push(
            Seq::empty(),
        ),
        !is_sep(style, s[i]) ==> segments(s.take(i + 1), style) == segments(
            s.take(i),
            style,
        ).drop_last().push(s.subrange(start, i + 1)),
{
    lemma_segments_nonempty(s.take(i), style);
    assert(s.take(i + 1).drop_last() =~= s.take(i));
    assert(s.subrange(start, i).push(s[i]) =~= s.subrange(start, i + 1));
    let segs = segments(s.take(i), style);
    if !is_sep(style, s[i]) {
        assert(segs.update(segs.len() - 1, segs.last().push(s[i])) =~= segs.drop_last().push(
            s.subrange(start, i + 1),
        ));
    }
}

/// The exec counterpart of [`segment_component`] for the segment `s[start..end]`.
fn segment_component_of(
    s: &str,
    start: usize,
    end: usize,
    verbatim: bool,
    out: &mut Vec<Component>,
)
    requires
        start <= end <= s@.len(),
    ensures
        views(final(out)@) == views(old(out)@) + segment_component(
            s@.subrange(start as int, end as int),
            verbatim,
        ),
{
    let ghost seg = s@.subrange(start as int, end as int);
    let len = end - start;
    if len == 0 {
        assert(views(out@) =~= views(out@) + segment_component(seg, verbatim));
        return;
    }
    let c0 = s.get_char(start);
    if len == 1 && c0 == '.' {
        assert(seg =~= seq!['.']);
        if verbatim {
            let ghost before = out@;
            out.push(Component::CurDir);
            proof {
                lemma_views_push(before, Component::CurDir);
            }
        }
        assert(views(out@) =~= views(old(out)@) + segment_component(seg, verbatim));
        return;
    }
    if len == 2 && c0 == '.' && s.get_char(start + 1) == '.' {
        assert(seg =~= seq!['.', '.']);
        out.push(Component::ParentDir);
        assert(views(out@) =~= views(old(out)@) + segment_component(seg, verbatim));
        return;
    }
    proof {
        if len == 1 {
            assert(seg != seq!['.']) by {
                assert(seg[0] == c0);
            }
            assert(seg != seq!['.', '.']);
        } else if len == 2 {
            assert(seg != seq!['.', '.']) by {
                assert(seg[0] == c0);
                assert(seg[1] == s@[start + 1]);
            }
        }
    }
    let piece = String::from_str(s.substring_char(start, end));
    assert(piece@ == seg);
    assert(segment_component(seg, verbatim) == seq![ComponentView::Normal(seg)]);
    out.push(Component::Normal(piece));
    assert(out@.last()@ == ComponentView::Normal(seg));
    assert(views(out@) =~= views(old(out)@) + segment_component(seg, verbatim));
}

/// Appends the components of the segments of `s`.
fn segment_components_of(s: &str, style: SepStyle, verbatim: bool, cs: &mut Vec<Component>)
    ensures
        views(final(cs)@) == views(old(cs)@) + segment_components(segments(s@, style), verbatim),
{
    let n = s.unicode_len();
    let ghost lead = views(cs@);
    let mut start: usize = 0;
    let mut i: usize = 0;
    assert(s@.take(0) =~= Seq::<char>::empty());
    assert(segments(s@.take(0), style).drop_last() =~= Seq::<Seq<char>>::empty());
    assert(views(cs@) =~= lead + segment_components(Seq::<Seq<char>>::empty(), verbatim));
    while i < n
        invariant
            n == s@.len(),
            start <= i <= n,
            segments(s@.take(i as int), style).len() >= 1,
            segments(s@.take(i as int), style).last() == s@.subrange(start as int, i as int),
            views(cs@) == lead + segment_components(
                segments(s@.take(i as int), style).drop_last(),
                verbatim,
            ),
        decreases n - i,
    {
        let c = s.get_char(i);
        proof {
            lemma_segments_step(s@, i as int, start as int, style);
        }
        if is_sep_char(style, c) {
            let ghost before = segments(s@.take(i as int), style);
            segment_component_of(s, start, i, verbatim, cs);
            proof {
                let after = segments(s@.take(i + 1), style);
                assert(after.drop_last() =~= before);
                assert(before =~= before.drop_last().push(before.last()));
                assert(segment_components(before, verbatim) == segment_components(
                    before.drop_last(),
                    verbatim,
                ) + segment_component(before.last(), verbatim));
                assert(s@.subrange(i + 1, i + 1) =~= Seq::<char>::empty());
            }
            start = i + 1;
        } else {
            proof {
                let before = segments(s@.take(i as int), style);
                let after = segments(s@.take(i + 1), style);
                assert(after.drop_last() =~= before.drop_last());
            }
        }
        i = i + 1;
    }
    let ghost segs = segments(s@.take(n as int), style);
    segment_component_of(s, start, n, verbatim, cs);
    proof {
        assert(s@.take(n as int) =~= s@);
        assert(segs =~= segs.drop_last().push(segs.last()));
        assert(segment_components(segs, verbatim) == segment_components(segs.drop_last(), verbatim)
            + segment_component(segs.last(), verbatim));
        assert(views(cs@) =~= lead + segment_components(segments(s@, style), verbatim));
    }
}

/// Splits a path into its components.
pub fn components(s: &str, platform: Platform) -> (cs: Vec<Component>)
    ensures
        views(cs@) == path_components(s@, platform),
{
    let n = s.unicode_len();
    let info = path_prefix(s, platform);
    proof {
        lemma_parse_prefix_len(s@);
    }
    let mut cs: Vec<Component> = Vec::new();
    let mut plen: usize = 0;
    let mut verbatim = false;
    let mut implied_root = false;
    let mut prefix_root = false;
    match info {
        Some((k, len)) => {
            plen = len;
            verbatim = match &k {
                Prefix::Verbatim(_) | Prefix::VerbatimUNC(..) | Prefix::VerbatimDisk(_) => true,
                _ => false,
            };
            prefix_root = match &k {
                Prefix::Disk(_) => false,
                _ => true,
            };
            implied_root = prefix_root && !verbatim;
            let text = String::from_str(s.substring_char(0, len));
            cs.push(Component::Prefix(k, text));
        },
        None => {},
    }
    let ghost pre = views(cs@);
    let style = match platform {
        Platform::Unix => SepStyle::Slash,
        Platform::Windows => if verbatim {
            SepStyle::Backslash
        } else {
            SepStyle::SlashOrBackslash
        },
    };
    assert(style == path_style(s@, platform));
    let rest = s.substring_char(plen, n);
    assert(rest@ =~= path_rest(s@, platform));
    let rn = rest.unicode_len();
    let physical = rn > 0 && is_sep_char(style, rest.get_char(0));
    if physical || implied_root {
        cs.push(Component::RootDir);
    }
    let has_root = physical || prefix_root;
    assert(has_root == path_has_root(s@, platform));
    if !has_root && plen == 0 && rn > 0 && rest.get_char(0) == '.' && (rn == 1 || is_sep_char(
        style,
        rest.get_char(1),
    )) {
        cs.push(Component::CurDir);
    }
    segment_components_of(rest, style, verbatim, &mut cs);
    assert(views(cs@) =~= path_components(s@, platform));
    cs
}


fn copy_prefix(k: &Prefix) -> (r: Prefix)
    ensures
        r@ == k@,
{
    match k {
        Prefix::Verbatim(a) => Prefix::Verbatim(a.clone()),
        Prefix::VerbatimUNC(a, b) => Prefix::VerbatimUNC(a.clone(), b.clone()),
        Prefix::VerbatimDisk(c) => Prefix::VerbatimDisk(*c),
        Prefix::DeviceNS(a) => Prefix::DeviceNS(a.clone()),
        Prefix::UNC(a, b) => Prefix::UNC(a.clone(), b.clone()),
        Prefix::Disk(c) => Prefix::Disk(*c),
    }
}

pub fn copy_component(c: &Component) -> (r: Component)
    ensures
        r@ == c@,
{
    match c {
        Component::Prefix(k, t) => Component::Prefix(copy_prefix(k), t.clone()),
        Component::RootDir => Component::RootDir,
        Component::CurDir => Component::CurDir,
        Component::ParentDir => Component::ParentDir,
        Component::Normal(s) => Component::Normal(s.clone()),
    }
}

fn prefix_eq(a: &Prefix, b: &Prefix) -> (r: bool)
    ensures
        r == (a@ == b@),
{
    match (a, b) {
        (Prefix::Verbatim(x), Prefix::Verbatim(y)) => x.eq(y),
        (Prefix::VerbatimUNC(x1, x2), Prefix::VerbatimUNC(y1, y2)) => x1.eq(y1) && x2.eq(y2),
        (Prefix::VerbatimDisk(x), Prefix::VerbatimDisk(y)) => *x == *y,
        (Prefix::DeviceNS(x), Prefix::DeviceNS(y)) => x.eq(y),
        (Prefix::UNC(x1, x2), Prefix::UNC(y1, y2)) => x1.eq(y1) && x2.eq(y2),
        (Prefix::Disk(x), Prefix::Disk(y)) => *x == *y,
        _ => false,
    }
}

/// Whether two components are the same (see [`same_component`]).
pub fn component_eq(a: &Component, b: &Component) -> (r: bool)
    ensures
        r == same_component(a@, b@),
{
    match (a, b) {
        (Component::Prefix(x, _), Component::Prefix(y, _)) => prefix_eq(x, y),
        (Component::RootDir, Component::RootDir) => true,
        (Component::CurDir, Component::CurDir) => true,
        (Component::ParentDir, Component::ParentDir) => true,
        (Component::Normal(x), Component::Normal(y)) => x.eq(y),
        _ => false,
    }
}

/// Whether a path has a root.
pub fn has_root(s: &str, platform: Platform) -> (r: bool)
    ensures
        r == path_has_root(s@, platform),
{
    let n = s.unicode_len();
    let info = path_prefix(s, platform);
    proof {
        lemma_parse_prefix_len(s@);
    }
    let (plen, verbatim, prefix_root) = match &info {
        Some((k, len)) => {
            let v = match k {
                Prefix::Verbatim(_) | Prefix::VerbatimUNC(..) | Prefix::VerbatimDisk(_) => true,
                _ => false,
            };
            let r = match k {
                Prefix::Disk(_) => false,
                _ => true,
            };
            (*len, v, r)
        },
        None => (0, false, false),
    };
    let style = match platform {
        Platform::Unix => SepStyle::Slash,
        Platform::Windows => if verbatim {
            SepStyle::Backslash
        } else {
            SepStyle::SlashOrBackslash
        },
    };
    let physical = plen < n && is_sep_char(style, s.get_char(plen));
    proof {
        if plen < n {
            assert(path_rest(s@, platform)[0] == s@[plen as int]);
        }
    }
    physical || prefix_root
}

/// Whether a path does not depend on a current directory.
pub fn is_absolute(s: &str, platform: Platform) -> (r: bool)
    ensures
        r == path_is_absolute(s@, platform),
{
    match platform {
        Platform::Unix => has_root(s, platform),
        Platform::Windows => has_root(s, platform) && windows_has_prefix(s),
    }
}

fn windows_has_prefix(s: &str) -> (r: bool)
    ensures
        r == (prefix_info(s@, Platform::Windows) is Some),
{
    path_prefix(s, Platform::Windows).is_some()
}

} // verus!
