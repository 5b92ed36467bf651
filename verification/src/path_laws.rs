//! Facts about Unix paths: the shape of their components, and that joined
//! components parse back.
use vstd::prelude::*;
use crate::join::{component_str, join_components, unix_push, windows_push};
use crate::path::{
    has_leading_cur_dir, path_components, path_has_root, physical_root, segment_component,
    segment_components, segments, ComponentView,
};
use crate::prefix::{is_sep, matches2, norm_char, parse_prefix, prefix_info, Platform, SepStyle};

verus! {

/// A component that a parsed Unix path can hold: a name is non-empty, has no `/`,
/// and is neither `.` nor `..`.
pub open spec fn valid_component(c: ComponentView) -> bool {
    match c {
        ComponentView::Normal(s) => {
            &&& s.len() > 0
            &&& forall|i: int| 0 <= i < s.len() ==> s[i] != '/'
            &&& s != seq!['.']
            &&& s != seq!['.', '.']
        },
        ComponentView::Prefix(_, _) => false,
        _ => true,
    }
}

/// The components other than `CurDir`, in order.
pub open spec fn without_cur(cs: Seq<ComponentView>) -> Seq<ComponentView>
    decreases cs.len(),
{
    if cs.len() == 0 {
        seq![]
    } else if cs.last() == ComponentView::CurDir {
        without_cur(cs.drop_last())
    } else {
        without_cur(cs.drop_last()).push(cs.last())
    }
}

pub proof fn lemma_without_cur_append(a: Seq<ComponentView>, b: Seq<ComponentView>)
    ensures
        without_cur(a + b) == without_cur(a) + without_cur(b),
    decreases b.len(),
{
    if b.len() == 0 {
        assert(a + b =~= a);
        assert(without_cur(a) + without_cur(b) =~= without_cur(a));
    } else {
        assert((a + b).drop_last() =~= a + b.drop_last());
        lemma_without_cur_append(a, b.drop_last());
        if b.last() != ComponentView::CurDir {
            assert(without_cur(a) + without_cur(b.drop_last()).push(b.last()) =~= (without_cur(a)
                + without_cur(b.drop_last())).push(b.last()));
        }
    }
}

proof fn lemma_segments_nonempty(s: Seq<char>)
    ensures
        segments(s, SepStyle::Slash).len() >= 1,
    decreases s.len(),
{
    if s.len() > 0 {
        lemma_segments_nonempty(s.drop_last());
    }
}

/// No segment holds a separator.
proof fn lemma_segments_no_separator(s: Seq<char>)
    ensures
        forall|i: int, j: int|
            0 <= i < segments(s, SepStyle::Slash).len() && 0 <= j < segments(
                s,
                SepStyle::Slash,
            )[i].len() ==> segments(s, SepStyle::Slash)[i][j] != '/',
    decreases s.len(),
{
    lemma_segments_nonempty(s);
    if s.len() > 0 {
        lemma_segments_no_separator(s.drop_last());
        lemma_segments_nonempty(s.drop_last());
    }
}

/// Segment components are parent directories or valid names.
proof fn lemma_segment_components_kinds(segs: Seq<Seq<char>>)
    requires
        forall|i: int, j: int| 0 <= i < segs.len() && 0 <= j < segs[i].len() ==> segs[i][j]
            != '/',
    ensures
        forall|i: int|
            0 <= i < segment_components(segs, false).len() ==> {
                let c = #[trigger] segment_components(segs, false)[i];
                &&& c is ParentDir || c is Normal
                &&& valid_component(c)
            },
    decreases segs.len(),
{
    if segs.len() > 0 {
        lemma_segment_components_kinds(segs.drop_last());
        let last = segs.last();
        assert(forall|j: int| 0 <= j < last.len() ==> last[j] != '/') by {
            assert(forall|j: int| 0 <= j < last.len() ==> last[j] == segs[segs.len() - 1][j]);
        }
    }
}

/// In a Unix path the root appears only first, and only where the path starts with
/// `/`; `CurDir` appears only first, and only where it does not; every component is
/// valid.
pub proof fn lemma_path_components_shape(s: Seq<char>)
    ensures
        forall|i: int|
            0 <= i < path_components(s, Platform::Unix).len() ==> {
                let c = #[trigger] path_components(s, Platform::Unix)[i];
                &&& valid_component(c)
                &&& c is RootDir ==> i == 0 && path_has_root(s, Platform::Unix)
                &&& c is CurDir ==> i == 0 && !path_has_root(s, Platform::Unix)
            },
        path_has_root(s, Platform::Unix) ==> path_components(s, Platform::Unix).len() > 0
            && path_components(s, Platform::Unix)[0] is RootDir,
{
    lemma_segments_no_separator(s);
    lemma_segment_components_kinds(segments(s, SepStyle::Slash));
    let root = if physical_root(s, Platform::Unix) {
        seq![ComponentView::RootDir]
    } else {
        seq![]
    };
    let cur = if has_leading_cur_dir(s, Platform::Unix) {
        seq![ComponentView::CurDir]
    } else {
        seq![]
    };
    let lead = root + cur;
    let rest = segment_components(segments(s, SepStyle::Slash), false);
    assert(path_components(s, Platform::Unix) =~= lead + rest);
    assert forall|i: int| 0 <= i < path_components(s, Platform::Unix).len() implies {
        let c = #[trigger] path_components(s, Platform::Unix)[i];
        &&& valid_component(c)
        &&& c is RootDir ==> i == 0 && path_has_root(s, Platform::Unix)
        &&& c is CurDir ==> i == 0 && !path_has_root(s, Platform::Unix)
    } by {
        if i >= lead.len() {
            assert(path_components(s, Platform::Unix)[i] == rest[i - lead.len()]);
        }
    }
}

/// A piece without separators is a single segment.
pub proof fn lemma_segments_single(b: Seq<char>)
    requires
        forall|i: int| 0 <= i < b.len() ==> b[i] != '/',
    ensures
        segments(b, SepStyle::Slash) == seq![b],
    decreases b.len(),
{
    if b.len() > 0 {
        assert(b.last() != '/');
        assert forall|i: int| 0 <= i < b.drop_last().len() implies b.drop_last()[i] != '/' by {
            assert(b.drop_last()[i] == b[i]);
        }
        lemma_segments_single(b.drop_last());
        assert(b.drop_last().push(b.last()) =~= b);
        let segs = segments(b.drop_last(), SepStyle::Slash);
        assert(segs == seq![b.drop_last()]);
        assert(segs.len() == 1);
        assert(segs.last() == b.drop_last());
        assert(segments(b, SepStyle::Slash) == segs.update(
            segs.len() - 1,
            segs.last().push(b.last()),
        ));
        assert(segs.update(0, b.drop_last().push(b.last())) =~= seq![b]);
    } else {
        assert(b =~= Seq::<char>::empty());
    }
}

/// A separator followed by a piece without separators adds one segment.
proof fn lemma_segments_after_separator(a: Seq<char>, b: Seq<char>)
    requires
        forall|i: int| 0 <= i < b.len() ==> b[i] != '/',
    ensures
        segments(a.push('/') + b, SepStyle::Slash) == segments(a, SepStyle::Slash).push(b),
    decreases b.len(),
{
    if b.len() == 0 {
        assert(a.push('/') + b =~= a.push('/'));
        assert(a.push('/').drop_last() =~= a);
        assert(b =~= Seq::<char>::empty());
    } else {
        assert forall|i: int| 0 <= i < b.drop_last().len() implies b.drop_last()[i] != '/' by {
            assert(b.drop_last()[i] == b[i]);
        }
        lemma_segments_after_separator(a, b.drop_last());
        let s = a.push('/') + b;
        assert(s.last() == b.last());
        assert(b.last() != '/');
        assert(s.drop_last() =~= a.push('/') + b.drop_last());
        let segs = segments(a, SepStyle::Slash).push(b.drop_last());
        assert(b.drop_last().push(b.last()) =~= b);
        assert(segs.last() == b.drop_last());
        assert(segs.update(segs.len() - 1, b) =~= segments(a, SepStyle::Slash).push(b));
    }
}

/// A component other than the root, given as text.
proof fn lemma_component_str_shape(c: ComponentView)
    requires
        valid_component(c),
        !(c is RootDir),
    ensures
        component_str(c, Platform::Unix).len() > 0,
        forall|i: int|
            0 <= i < component_str(c, Platform::Unix).len() ==> component_str(c, Platform::Unix)[i]
                != '/',
        segment_component(component_str(c, Platform::Unix), false) == without_cur(seq![c]),
{
    assert(seq![c].drop_last() =~= Seq::<ComponentView>::empty());
    assert(seq![c].last() == c);
    assert(without_cur(Seq::<ComponentView>::empty()) =~= Seq::<ComponentView>::empty());
    if c is Normal {
        assert(without_cur(seq![c]) =~= seq![c]);
        assert(segment_component(component_str(c, Platform::Unix), false) == seq![c]);
    } else if c is ParentDir {
        assert(without_cur(seq![c]) =~= seq![c]);
        assert(component_str(c, Platform::Unix) == seq!['.', '.']);
        assert(segment_component(component_str(c, Platform::Unix), false) == seq![c]);
    } else {
        assert(c is CurDir);
        assert(without_cur(seq![c]) =~= Seq::<ComponentView>::empty());
        assert(component_str(c, Platform::Unix) == seq!['.']);
        assert(segment_component(component_str(c, Platform::Unix), false)
            =~= Seq::<ComponentView>::empty());
    }
}

/// Joining Unix components without a root and parsing the text again gives back the
/// components, up to `CurDir` components.
pub proof fn lemma_join_then_parse(cs: Seq<ComponentView>)
    requires
        forall|i: int| 0 <= i < cs.len() ==> valid_component(#[trigger] cs[i]) && !(cs[i] is RootDir),
    ensures
        segment_components(segments(join_components(cs, Platform::Unix), SepStyle::Slash), false)
            == without_cur(cs),
        !path_has_root(join_components(cs, Platform::Unix), Platform::Unix),
        cs.len() > 0 ==> join_components(cs, Platform::Unix).len() > 0 && join_components(
            cs,
            Platform::Unix,
        ).last() != '/',
    decreases cs.len(),
{
    let e = Seq::<char>::empty();
    if cs.len() == 0 {
        assert(join_components(cs, Platform::Unix) =~= e);
        assert(segment_components(seq![e], false) =~= Seq::<ComponentView>::empty()) by {
            assert(seq![e].drop_last() =~= Seq::<Seq<char>>::empty());
            assert(seq![e].last() == e);
            assert(segment_component(e, false) =~= Seq::<ComponentView>::empty());
            assert(segment_components(Seq::<Seq<char>>::empty(), false)
                =~= Seq::<ComponentView>::empty());
        }
    } else {
        let init = cs.drop_last();
        let c = cs.last();
        lemma_join_then_parse(init);
        lemma_component_str_shape(c);
        let a = join_components(init, Platform::Unix);
        let b = component_str(c, Platform::Unix);
        assert(!path_has_root(b, Platform::Unix));
        assert(cs =~= init.push(c));
        assert(without_cur(cs) == without_cur(init) + without_cur(seq![c])) by {
            lemma_without_cur_append(init, seq![c]);
        }
        assert(join_components(cs, Platform::Unix) == unix_push(a, b));
        if init.len() == 0 {
            assert(a =~= e);
            assert(join_components(cs, Platform::Unix) =~= b);
            lemma_segments_single(b);
            assert(segment_components(seq![b], false) == segment_components(
                seq![b].drop_last(),
                false,
            ) + segment_component(b, false));
            assert(seq![b].drop_last() =~= Seq::<Seq<char>>::empty());
            assert(without_cur(init) =~= Seq::<ComponentView>::empty());
            assert(segment_components(seq![b], false) =~= without_cur(cs));
        } else {
            assert(join_components(cs, Platform::Unix) == a.push('/') + b);
            lemma_segments_after_separator(a, b);
            let segs = segments(a, SepStyle::Slash).push(b);
            assert(segs.drop_last() =~= segments(a, SepStyle::Slash));
        }
    }
}

/// A name that Windows text reads back as the same single name: non-empty, without
/// `/`, `\` or `:`, and neither `.` nor `..`.
pub open spec fn windows_name(s: Seq<char>) -> bool {
    &&& s.len() > 0
    &&& forall|i: int| 0 <= i < s.len() ==> !is_sep(SepStyle::SlashOrBackslash, s[i]) && s[i] != ':'
    &&& s != seq!['.']
    &&& s != seq!['.', '.']
}

/// A component that joined Windows text reads back: `.`, `..`, or a [`windows_name`].
pub open spec fn windows_plain(c: ComponentView) -> bool {
    match c {
        ComponentView::Normal(s) => windows_name(s),
        ComponentView::CurDir => true,
        ComponentView::ParentDir => true,
        _ => false,
    }
}

/// A piece without separators is a single segment.
pub proof fn lemma_segments_single_in(b: Seq<char>, style: SepStyle)
    requires
        forall|i: int| 0 <= i < b.len() ==> !is_sep(style, b[i]),
    ensures
        segments(b, style) == seq![b],
    decreases b.len(),
{
    if b.len() > 0 {
        assert(!is_sep(style, b.last()));
        assert forall|i: int| 0 <= i < b.drop_last().len() implies !is_sep(
            style,
            b.drop_last()[i],
        ) by {
            assert(b.drop_last()[i] == b[i]);
        }
        lemma_segments_single_in(b.drop_last(), style);
        assert(b.drop_last().push(b.last()) =~= b);
        let segs = segments(b.drop_last(), style);
        assert(segs.len() == 1);
        assert(segs.last() == b.drop_last());
        assert(segments(b, style) == segs.update(segs.len() - 1, segs.last().push(b.last())));
        assert(segs.update(0, b.drop_last().push(b.last())) =~= seq![b]);
    } else {
        assert(b =~= Seq::<char>::empty());
    }
}

/// A separator followed by a piece without separators adds one segment.
pub proof fn lemma_segments_after_separator_in(a: Seq<char>, b: Seq<char>, style: SepStyle, sep: char)
    requires
        is_sep(style, sep),
        forall|i: int| 0 <= i < b.len() ==> !is_sep(style, b[i]),
    ensures
        segments(a.push(sep) + b, style) == segments(a, style).push(b),
    decreases b.len(),
{
    if b.len() == 0 {
        assert(a.push(sep) + b =~= a.push(sep));
        assert(a.push(sep).drop_last() =~= a);
        assert(b =~= Seq::<char>::empty());
    } else {
        assert forall|i: int| 0 <= i < b.drop_last().len() implies !is_sep(
            style,
            b.drop_last()[i],
        ) by {
            assert(b.drop_last()[i] == b[i]);
        }
        lemma_segments_after_separator_in(a, b.drop_last(), style, sep);
        let s = a.push(sep) + b;
        assert(s.last() == b.last());
        assert(s.drop_last() =~= a.push(sep) + b.drop_last());
        let segs = segments(a, style).push(b.drop_last());
        assert(b.drop_last().push(b.last()) =~= b);
        assert(segs.last() == b.drop_last());
        assert(segs.update(segs.len() - 1, b) =~= segments(a, style).push(b));
    }
}

/// Text whose first character is no separator and whose second is no `:` has no
/// Windows prefix.
proof fn lemma_no_prefix(t: Seq<char>)
    requires
        t.len() > 0 ==> !is_sep(SepStyle::SlashOrBackslash, t[0]),
        t.len() > 1 ==> t[1] != ':',
    ensures
        parse_prefix(t) is None,
{
    if t.len() >= 2 {
        assert(norm_char(t, 0) != '\\');
        assert(!matches2(t, 0, '\\', '\\'));
    }
}

/// The text of a plain component, on Windows.
proof fn lemma_windows_str_shape(c: ComponentView)
    requires
        windows_plain(c),
    ensures
        component_str(c, Platform::Windows).len() > 0,
        forall|i: int|
            0 <= i < component_str(c, Platform::Windows).len() ==> !is_sep(
                SepStyle::SlashOrBackslash,
                component_str(c, Platform::Windows)[i],
            ),
        component_str(c, Platform::Windows).len() > 1 ==> component_str(c, Platform::Windows)[1]
            != ':',
        segment_component(component_str(c, Platform::Windows), false) == without_cur(seq![c]),
{
    assert(seq![c].drop_last() =~= Seq::<ComponentView>::empty());
    assert(seq![c].last() == c);
    assert(without_cur(Seq::<ComponentView>::empty()) =~= Seq::<ComponentView>::empty());
    if c is Normal {
        assert(without_cur(seq![c]) =~= seq![c]);
        assert(segment_component(component_str(c, Platform::Windows), false) == seq![c]);
    } else if c is ParentDir {
        assert(without_cur(seq![c]) =~= seq![c]);
        assert(component_str(c, Platform::Windows) == seq!['.', '.']);
        assert(segment_component(component_str(c, Platform::Windows), false) == seq![c]);
    } else {
        assert(c is CurDir);
        assert(without_cur(seq![c]) =~= Seq::<ComponentView>::empty());
        assert(component_str(c, Platform::Windows) == seq!['.']);
        assert(segment_component(component_str(c, Platform::Windows), false)
            =~= Seq::<ComponentView>::empty());
    }
}

/// Joining plain Windows components and reading the text again gives back the
/// components, up to `CurDir` components; the text has no prefix and no root.
pub proof fn lemma_windows_join_then_parse(cs: Seq<ComponentView>)
    requires
        forall|i: int| 0 <= i < cs.len() ==> windows_plain(#[trigger] cs[i]),
    ensures
        ({
            let t = join_components(cs, Platform::Windows);
            &&& segment_components(segments(t, SepStyle::SlashOrBackslash), false) == without_cur(
                cs,
            )
            &&& parse_prefix(t) is None
            &&& t.len() > 0 ==> !is_sep(SepStyle::SlashOrBackslash, t[0])
            &&& t.len() > 1 ==> t[1] != ':'
            &&& cs.len() > 0 ==> t.len() > 0 && !is_sep(SepStyle::SlashOrBackslash, t.last())
        }),
    decreases cs.len(),
{
    let e = Seq::<char>::empty();
    let style = SepStyle::SlashOrBackslash;
    if cs.len() == 0 {
        assert(join_components(cs, Platform::Windows) =~= e);
        assert(segment_components(seq![e], false) =~= Seq::<ComponentView>::empty()) by {
            assert(seq![e].drop_last() =~= Seq::<Seq<char>>::empty());
            assert(seq![e].last() == e);
            assert(segment_component(e, false) =~= Seq::<ComponentView>::empty());
            assert(segment_components(Seq::<Seq<char>>::empty(), false)
                =~= Seq::<ComponentView>::empty());
        }
        lemma_no_prefix(e);
    } else {
        let init = cs.drop_last();
        let c = cs.last();
        lemma_windows_join_then_parse(init);
        lemma_windows_str_shape(c);
        let a = join_components(init, Platform::Windows);
        let b = component_str(c, Platform::Windows);
        lemma_no_prefix(b);
        assert(cs =~= init.push(c));
        assert(without_cur(cs) == without_cur(init) + without_cur(seq![c])) by {
            lemma_without_cur_append(init, seq![c]);
        }
        assert(join_components(cs, Platform::Windows) == windows_push(a, b));
        assert(prefix_info(b, Platform::Windows) is None);
        assert(prefix_info(a, Platform::Windows) is None);
        assert(!is_sep(style, b[0]));
        assert(!crate::path::path_has_root(b, Platform::Windows));
        if init.len() == 0 {
            assert(a =~= e);
            assert(windows_push(a, b) =~= b);
            lemma_segments_single_in(b, style);
            assert(segment_components(seq![b], false) == segment_components(
                seq![b].drop_last(),
                false,
            ) + segment_component(b, false));
            assert(seq![b].drop_last() =~= Seq::<Seq<char>>::empty());
            assert(without_cur(init) =~= Seq::<ComponentView>::empty());
            assert(segment_components(seq![b], false) =~= without_cur(cs));
        } else {
            let t = a.push('\\') + b;
            assert(windows_push(a, b) == t);
            lemma_segments_after_separator_in(a, b, style, '\\');
            let segs = segments(a, style).push(b);
            assert(segs.drop_last() =~= segments(a, style));
            assert(t[0] == a[0]);
            if a.len() > 1 {
                assert(t[1] == a[1]);
            } else {
                assert(t[1] == '\\');
            }
            assert(t.last() == b.last());
            lemma_no_prefix(t);
        }
    }
}

/// A separator between two texts puts their segments one after the other.
pub proof fn lemma_segments_concat(a: Seq<char>, b: Seq<char>, style: SepStyle, sep: char)
    requires
        is_sep(style, sep),
    ensures
        segments(a.push(sep) + b, style) == segments(a, style) + segments(b, style),
    decreases b.len(),
{
    let e = Seq::<char>::empty();
    if b.len() == 0 {
        assert(a.push(sep) + b =~= a.push(sep));
        assert(a.push(sep).drop_last() =~= a);
        assert(a.push(sep).last() == sep);
        assert(b =~= e);
        assert(segments(e, style) =~= seq![e]);
        assert(segments(a, style).push(e) =~= segments(a, style) + seq![e]);
    } else {
        let s = a.push(sep) + b;
        assert(s.drop_last() =~= a.push(sep) + b.drop_last());
        assert(s.last() == b.last());
        lemma_segments_concat(a, b.drop_last(), style, sep);
        crate::path::lemma_segments_nonempty(b.drop_last(), style);
        let x = segments(a, style);
        let y = segments(b.drop_last(), style);
        let c = b.last();
        if is_sep(style, c) {
            assert((x + y).push(Seq::<char>::empty()) =~= x + y.push(Seq::<char>::empty()));
        } else {
            assert((x + y).last() == y.last());
            assert((x + y).update((x + y).len() - 1, y.last().push(c)) =~= x + y.update(
                y.len() - 1,
                y.last().push(c),
            ));
        }
    }
}

/// The components of segments one after the other are those of each, in order.
pub proof fn lemma_segment_components_concat(x: Seq<Seq<char>>, y: Seq<Seq<char>>, v: bool)
    ensures
        segment_components(x + y, v) == segment_components(x, v) + segment_components(y, v),
    decreases y.len(),
{
    if y.len() == 0 {
        assert(x + y =~= x);
        assert(segment_components(x, v) + segment_components(y, v) =~= segment_components(x, v));
    } else {
        assert((x + y).drop_last() =~= x + y.drop_last());
        assert((x + y).last() == y.last());
        lemma_segment_components_concat(x, y.drop_last(), v);
        assert(segment_components(x, v) + segment_components(y.drop_last(), v)
            + segment_component(y.last(), v) =~= segment_components(x, v) + (segment_components(
            y.drop_last(),
            v,
        ) + segment_component(y.last(), v)));
    }
}

/// Outside a verbatim path, segments give no `CurDir`.
proof fn lemma_segment_components_no_cur(segs: Seq<Seq<char>>)
    ensures
        without_cur(segment_components(segs, false)) == segment_components(segs, false),
    decreases segs.len(),
{
    if segs.len() > 0 {
        lemma_segment_components_no_cur(segs.drop_last());
        let a = segment_components(segs.drop_last(), false);
        let c = segment_component(segs.last(), false);
        lemma_without_cur_append(a, c);
        if c.len() == 1 {
            assert(c.drop_last() =~= Seq::<ComponentView>::empty());
            assert(c.last() != ComponentView::CurDir);
            assert(without_cur(Seq::<ComponentView>::empty()) =~= Seq::<ComponentView>::empty());
            assert(without_cur(c) == without_cur(c.drop_last()).push(c.last()));
            assert(Seq::<ComponentView>::empty().push(c.last()) =~= c);
        } else {
            assert(c =~= Seq::<ComponentView>::empty());
        }
    }
}

/// A Unix path's components, `.` left out: the root where it starts with `/`, then
/// one component for each segment.
pub proof fn lemma_unix_components_without_cur(s: Seq<char>)
    ensures
        without_cur(path_components(s, Platform::Unix)) == (if physical_root(s, Platform::Unix) {
            seq![ComponentView::RootDir]
        } else {
            seq![]
        }) + segment_components(segments(s, SepStyle::Slash), false),
{
    let root = if physical_root(s, Platform::Unix) {
        seq![ComponentView::RootDir]
    } else {
        seq![]
    };
    let cur = if has_leading_cur_dir(s, Platform::Unix) {
        seq![ComponentView::CurDir]
    } else {
        seq![]
    };
    let rest = segment_components(segments(s, SepStyle::Slash), false);
    assert(path_components(s, Platform::Unix) =~= (root + cur) + rest);
    lemma_without_cur_append(root + cur, rest);
    lemma_without_cur_append(root, cur);
    lemma_segment_components_no_cur(segments(s, SepStyle::Slash));
    let e = Seq::<ComponentView>::empty();
    assert(without_cur(e) == e);
    if root.len() == 1 {
        assert(root.drop_last() =~= e);
        assert(without_cur(root) =~= root);
    } else {
        assert(root =~= e);
    }
    if cur.len() == 1 {
        assert(cur.drop_last() =~= e);
        assert(without_cur(cur) =~= e);
    } else {
        assert(cur =~= e);
    }
    assert(without_cur(root) + without_cur(cur) =~= root);
}

/// A single empty segment gives no component.
pub proof fn lemma_one_empty_segment_plain()
    ensures
        segment_components(seq![Seq::<char>::empty()], false) == Seq::<ComponentView>::empty(),
{
    let e = Seq::<ComponentView>::empty();
    let one = seq![Seq::<char>::empty()];
    assert(one.drop_last() =~= Seq::<Seq<char>>::empty());
    assert(one.last() =~= Seq::<char>::empty());
    assert(segment_component(Seq::<char>::empty(), false) =~= e);
    assert(segment_components(Seq::<Seq<char>>::empty(), false) =~= e);
    assert(segment_components(one, false) =~= e + e);
    assert(e + e =~= e);
}

/// A trailing `/` adds no component.
proof fn lemma_trailing_slash_components(q: Seq<char>)
    ensures
        segment_components(segments(q.push('/'), SepStyle::Slash), false) == segment_components(
            segments(q, SepStyle::Slash),
            false,
        ),
{
    let st = SepStyle::Slash;
    let e = Seq::<ComponentView>::empty();
    lemma_segments_concat(q, Seq::<char>::empty(), st, '/');
    assert(q.push('/') + Seq::<char>::empty() =~= q.push('/'));
    assert(segments(Seq::<char>::empty(), st) =~= seq![Seq::<char>::empty()]);
    lemma_segment_components_concat(segments(q, st), seq![Seq::<char>::empty()], false);
    lemma_one_empty_segment_plain();
    assert(segment_components(segments(q, st), false) + e =~= segment_components(
        segments(q, st),
        false,
    ));
}

/// Extending a Unix path by one without a root adds the latter's components after
/// the former's (`.` left out of both).
pub proof fn lemma_unix_push_components(p: Seq<char>, t: Seq<char>)
    requires
        !path_has_root(t, Platform::Unix),
    ensures
        without_cur(path_components(unix_push(p, t), Platform::Unix)) == without_cur(
            path_components(p, Platform::Unix),
        ) + without_cur(path_components(t, Platform::Unix)),
{
    let st = SepStyle::Slash;
    let e = Seq::<ComponentView>::empty();
    let r = unix_push(p, t);
    lemma_unix_components_without_cur(p);
    lemma_unix_components_without_cur(t);
    lemma_unix_components_without_cur(r);
    assert(!physical_root(t, Platform::Unix));
    let sct = segment_components(segments(t, st), false);
    if p.len() == 0 {
        assert(r =~= t);
        assert(!physical_root(p, Platform::Unix));
        assert(segments(p, st) =~= seq![Seq::<char>::empty()]);
        lemma_one_empty_segment_plain();
        assert(e + e + sct =~= sct);
    } else {
        let q = if p.last() == '/' {
            p.drop_last()
        } else {
            p
        };
        if p.last() == '/' {
            assert(q.push('/') =~= p);
            assert(r =~= q.push('/') + t);
            lemma_trailing_slash_components(q);
        } else {
            assert(r =~= p.push('/') + t);
        }
        lemma_segments_concat(q, t, st, '/');
        lemma_segment_components_concat(segments(q, st), segments(t, st), false);
        assert(r[0] == p[0]);
        assert(physical_root(r, Platform::Unix) == physical_root(p, Platform::Unix));
        let root = if physical_root(p, Platform::Unix) {
            seq![ComponentView::RootDir]
        } else {
            e
        };
        let scq = segment_components(segments(q, st), false);
        assert(segment_components(segments(p, st), false) =~= scq);
        assert(root + (scq + sct) =~= (root + scq) + (e + sct));
    }
}

} // verus!
