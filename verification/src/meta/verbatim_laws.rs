//! What the verbatim form of a normalised absolute Windows path is, and that taking
//! the verbatim form again changes nothing.
use vstd::prelude::*;
use crate::join::{rebuild, verbatim_fold, windows_push};
use crate::meta::utils::{spec_verbatim_path, verbatim_start};
use crate::path::{
    path_components, path_is_absolute, physical_root, has_leading_cur_dir, path_rest, path_style,
    path_verbatim, segment_component, segment_components, segments, ComponentView,
};
use crate::path_laws::lemma_segments_after_separator_in;
use crate::prefix::{
    after_sep, ascii_upper, comp_end, is_drive_letter, is_sep, matches2, norm_char, parse_prefix,
    prefix_is_verbatim, Platform, PrefixView, SepStyle,
};

verus! {

/// A name of a normalised path: non-empty, without separators, neither `.` nor `..`.
pub open spec fn plain_name(s: Seq<char>) -> bool {
    &&& s.len() > 0
    &&& forall|i: int| 0 <= i < s.len() ==> !is_sep(SepStyle::SlashOrBackslash, s[i])
    &&& s != seq!['.']
    &&& s != seq!['.', '.']
}

pub open spec fn plain_names(ns: Seq<Seq<char>>) -> bool {
    forall|i: int| 0 <= i < ns.len() ==> plain_name(#[trigger] ns[i])
}

/// `\` and then the names, each after a `\` (`\a\b`; just `\` without names).
pub open spec fn rooted_names(ns: Seq<Seq<char>>) -> Seq<char>
    decreases ns.len(),
{
    if ns.len() == 0 {
        seq!['\\']
    } else if ns.len() == 1 {
        seq!['\\'] + ns[0]
    } else {
        rooted_names(ns.drop_last()).push('\\') + ns.last()
    }
}

/// The names as components.
pub open spec fn name_components(ns: Seq<Seq<char>>) -> Seq<ComponentView> {
    Seq::new(ns.len(), |i: int| ComponentView::Normal(ns[i]))
}

/// `\\?\UNC\server\share`.
pub open spec fn verbatim_share(server: Seq<char>, share: Seq<char>) -> Seq<char> {
    verbatim_start() + seq!['U', 'N', 'C', '\\'] + server + seq!['\\'] + share
}

/// `\\server\share`.
pub open spec fn plain_share(server: Seq<char>, share: Seq<char>) -> Seq<char> {
    seq!['\\', '\\'] + server + seq!['\\'] + share
}

/// A component ends at the first separator after it.
proof fn lemma_comp_end_stops(s: Seq<char>, i: int, j: int, style: SepStyle)
    requires
        0 <= i <= j <= s.len(),
        forall|k: int| i <= k < j ==> !is_sep(style, s[k]),
        j == s.len() || is_sep(style, s[j]),
    ensures
        comp_end(s, i, style) == j,
    decreases j - i,
{
    if i < j {
        lemma_comp_end_stops(s, i + 1, j, style);
    }
}

/// A drive path starts with a drive prefix.
proof fn lemma_parse_disk(d: char, tail: Seq<char>)
    requires
        is_drive_letter(d),
    ensures
        parse_prefix(seq![d, ':'] + tail) == Some((PrefixView::Disk(ascii_upper(d)), 2int)),
{
    let s = seq![d, ':'] + tail;
    assert(s[0] == d && s[1] == ':');
    assert(norm_char(s, 0) != '\\');
}

/// `\\?\C:` followed by nothing or a `\` starts with a verbatim drive prefix.
proof fn lemma_parse_verbatim_disk(d: char, tail: Seq<char>)
    requires
        is_drive_letter(d),
        tail.len() == 0 || tail[0] == '\\',
    ensures
        parse_prefix(verbatim_start() + seq![d, ':'] + tail) == Some(
            (PrefixView::VerbatimDisk(ascii_upper(d)), 6int),
        ),
{
    let s = verbatim_start() + seq![d, ':'] + tail;
    assert(s[0] == '\\' && s[1] == '\\' && s[2] == '?' && s[3] == '\\' && s[4] == d && s[5]
        == ':');
    assert(matches2(s, 0, '\\', '\\'));
    assert(matches2(s, 2, '?', '\\'));
    assert(norm_char(s, 5) != 'N');
    if tail.len() > 0 {
        assert(s[6] == tail[0]);
    }
}

/// `\\server\share` followed by nothing or a `\` starts with a share prefix.
proof fn lemma_parse_share(server: Seq<char>, share: Seq<char>, tail: Seq<char>)
    requires
        plain_name(server),
        plain_name(share),
        server != seq!['?'],
        tail.len() == 0 || tail[0] == '\\',
    ensures
        parse_prefix(plain_share(server, share) + tail) == Some(
            (PrefixView::UNC(server, share), plain_share(server, share).len() as int),
        ),
{
    let s = plain_share(server, share) + tail;
    let st = SepStyle::SlashOrBackslash;
    let e1: int = (server.len() + 2) as int;
    let s2: int = e1 + 1;
    let e2: int = s2 + share.len() as int;
    assert(s[0] == '\\' && s[1] == '\\');
    assert(matches2(s, 0, '\\', '\\'));
    assert(s[2] == server[0]);
    assert(!matches2(s, 2, '?', '\\')) by {
        if server.len() == 1 {
            assert(s[2] == server[0]);
            assert(server =~= seq![server[0]]);
        } else {
            assert(s[3] == server[1]);
            assert(!is_sep(st, server[1]));
        }
    }
    assert(!matches2(s, 2, '.', '\\')) by {
        if server.len() == 1 {
            assert(server =~= seq![server[0]]);
        } else {
            assert(s[3] == server[1]);
            assert(!is_sep(st, server[1]));
        }
    }
    assert forall|k: int| 2 <= k < e1 implies !is_sep(st, s[k]) by {
        assert(s[k] == server[k - 2]);
    }
    assert(s[e1] == '\\');
    lemma_comp_end_stops(s, 2, e1, st);
    assert(after_sep(s, e1) == s2);
    assert forall|k: int| s2 <= k < e2 implies !is_sep(st, s[k]) by {
        assert(s[k] == share[k - s2]);
    }
    if tail.len() > 0 {
        assert(s[e2] == tail[0]);
    }
    lemma_comp_end_stops(s, s2, e2, st);
    assert(s.subrange(2, e1) =~= server);
    assert(s.subrange(s2, e2) =~= share);
}

/// `\\?\UNC\server\share` followed by nothing or a `\` starts with a verbatim share
/// prefix.
proof fn lemma_parse_verbatim_share(server: Seq<char>, share: Seq<char>, tail: Seq<char>)
    requires
        plain_name(server),
        plain_name(share),
        tail.len() == 0 || tail[0] == '\\',
    ensures
        parse_prefix(verbatim_share(server, share) + tail) == Some(
            (PrefixView::VerbatimUNC(server, share), verbatim_share(server, share).len() as int),
        ),
{
    let s = verbatim_share(server, share) + tail;
    let st = SepStyle::Backslash;
    let e1: int = (server.len() + 8) as int;
    let s2: int = e1 + 1;
    let e2: int = s2 + share.len() as int;
    assert(s[0] == '\\' && s[1] == '\\' && s[2] == '?' && s[3] == '\\');
    assert(s[4] == 'U' && s[5] == 'N' && s[6] == 'C' && s[7] == '\\');
    assert(matches2(s, 0, '\\', '\\'));
    assert(matches2(s, 2, '?', '\\'));
    assert forall|k: int| 8 <= k < e1 implies !is_sep(st, s[k]) by {
        assert(s[k] == server[k - 8]);
    }
    assert(s[e1] == '\\');
    lemma_comp_end_stops(s, 8, e1, st);
    assert(after_sep(s, e1) == s2);
    assert forall|k: int| s2 <= k < e2 implies !is_sep(st, s[k]) by {
        assert(s[k] == share[k - s2]);
    }
    if tail.len() > 0 {
        assert(s[e2] == tail[0]);
    }
    lemma_comp_end_stops(s, s2, e2, st);
    assert(s.subrange(8, e1) =~= server);
    assert(s.subrange(s2, e2) =~= share);
}

/// How `rooted_names` starts: with `\`, then the first name's first character.
proof fn lemma_rooted_names_start(ns: Seq<Seq<char>>)
    requires
        plain_names(ns),
    ensures
        rooted_names(ns).len() >= 1,
        rooted_names(ns)[0] == '\\',
        ns.len() > 0 ==> rooted_names(ns).len() >= 2 && rooted_names(ns)[1] == ns[0][0],
    decreases ns.len(),
{
    if ns.len() == 1 {
        assert(plain_name(ns[0]));
    } else if ns.len() > 1 {
        let d = ns.drop_last();
        assert forall|i: int| 0 <= i < d.len() implies plain_name(#[trigger] d[i]) by {
            assert(d[i] == ns[i]);
        }
        lemma_rooted_names_start(d);
        assert(d[0] == ns[0]);
    }
}

/// The pieces of `rooted_names(ns)`: an empty one before the first `\`, then the names
/// (or one more empty piece where there are none).
pub open spec fn name_segments(ns: Seq<Seq<char>>) -> Seq<Seq<char>> {
    if ns.len() == 0 {
        seq![Seq::empty(), Seq::empty()]
    } else {
        seq![Seq::<char>::empty()] + ns
    }
}

proof fn lemma_plain_no_sep(n: Seq<char>, style: SepStyle)
    requires
        plain_name(n),
    ensures
        forall|i: int| 0 <= i < n.len() ==> !is_sep(style, #[trigger] n[i]),
{
    assert forall|i: int| 0 <= i < n.len() implies !is_sep(style, #[trigger] n[i]) by {
        assert(!is_sep(SepStyle::SlashOrBackslash, n[i]));
    }
}

proof fn lemma_rooted_names_segments(ns: Seq<Seq<char>>, style: SepStyle)
    requires
        plain_names(ns),
        is_sep(style, '\\'),
    ensures
        segments(rooted_names(ns), style) == name_segments(ns),
    decreases ns.len(),
{
    let e = Seq::<char>::empty();
    if ns.len() == 0 {
        lemma_segments_after_separator_in(e, e, style, '\\');
        assert(e.push('\\') + e =~= seq!['\\']);
        assert(segments(e, style) =~= seq![e]);
        assert(seq![e].push(e) =~= name_segments(ns));
    } else if ns.len() == 1 {
        assert(plain_name(ns[0]));
        lemma_plain_no_sep(ns[0], style);
        lemma_segments_after_separator_in(e, ns[0], style, '\\');
        assert(e.push('\\') + ns[0] =~= seq!['\\'] + ns[0]);
        assert(segments(e, style) =~= seq![e]);
        assert(seq![e].push(ns[0]) =~= name_segments(ns));
    } else {
        let d = ns.drop_last();
        assert forall|i: int| 0 <= i < d.len() implies plain_name(#[trigger] d[i]) by {
            assert(d[i] == ns[i]);
        }
        lemma_rooted_names_segments(d, style);
        assert(plain_name(ns[ns.len() - 1]));
        lemma_plain_no_sep(ns.last(), style);
        lemma_segments_after_separator_in(rooted_names(d), ns.last(), style, '\\');
        assert(name_segments(d).push(ns.last()) =~= name_segments(ns));
    }
}

/// A single empty segment contributes nothing.
proof fn lemma_one_empty_segment(verbatim: bool)
    ensures
        segment_components(seq![Seq::<char>::empty()], verbatim) == Seq::<ComponentView>::empty(),
{
    let e = Seq::<char>::empty();
    let s = seq![e];
    assert(s.drop_last() =~= Seq::<Seq<char>>::empty());
    assert(s.last() == e);
    assert(segment_component(e, verbatim) =~= Seq::<ComponentView>::empty());
    assert(segment_components(s.drop_last(), verbatim) == Seq::<ComponentView>::empty());
    assert(segment_components(s, verbatim) =~= Seq::<ComponentView>::empty());
}

/// The segments `[""] + ns` contribute the names as components.
proof fn lemma_name_segment_components(ns: Seq<Seq<char>>, verbatim: bool)
    requires
        plain_names(ns),
    ensures
        segment_components(seq![Seq::<char>::empty()] + ns, verbatim) == name_components(ns),
    decreases ns.len(),
{
    let e = Seq::<char>::empty();
    let segs = seq![e] + ns;
    if ns.len() == 0 {
        assert(segs =~= seq![e]);
        lemma_one_empty_segment(verbatim);
        assert(name_components(ns) =~= Seq::<ComponentView>::empty());
    } else {
        let d = ns.drop_last();
        assert forall|i: int| 0 <= i < d.len() implies plain_name(#[trigger] d[i]) by {
            assert(d[i] == ns[i]);
        }
        lemma_name_segment_components(d, verbatim);
        assert(segs.drop_last() =~= seq![e] + d);
        assert(segs.last() == ns.last());
        assert(plain_name(ns[ns.len() - 1]));
        assert(segment_component(ns.last(), verbatim) =~= seq![ComponentView::Normal(ns.last())]);
        assert(name_components(d).push(ComponentView::Normal(ns.last())) =~= name_components(ns));
    }
}

/// Both kinds of name segments contribute the names.
proof fn lemma_name_segments_components(ns: Seq<Seq<char>>, verbatim: bool)
    requires
        plain_names(ns),
    ensures
        segment_components(name_segments(ns), verbatim) == name_components(ns),
{
    let e = Seq::<char>::empty();
    if ns.len() == 0 {
        let segs = seq![e, e];
        assert(segs.drop_last() =~= seq![e]);
        assert(segs.last() == e);
        lemma_one_empty_segment(verbatim);
        assert(segment_components(segs, verbatim) =~= Seq::<ComponentView>::empty());
        assert(name_components(ns) =~= Seq::<ComponentView>::empty());
    } else {
        lemma_name_segment_components(ns, verbatim);
    }
}

/// `rooted_names(ns)` has no prefix; its components are a root and the names.
proof fn lemma_rooted_names_components(ns: Seq<Seq<char>>)
    requires
        plain_names(ns),
    ensures
        parse_prefix(rooted_names(ns)) is None,
        path_components(rooted_names(ns), Platform::Windows) == seq![ComponentView::RootDir]
            + name_components(ns),
{
    let r = rooted_names(ns);
    lemma_rooted_names_start(ns);
    if ns.len() > 0 {
        assert(plain_name(ns[0]));
        assert(!is_sep(SepStyle::SlashOrBackslash, ns[0][0]));
    }
    assert(!matches2(r, 0, '\\', '\\'));
    assert(!is_drive_letter(r[0]));
    assert(parse_prefix(r) is None);
    let st = SepStyle::SlashOrBackslash;
    assert(path_style(r, Platform::Windows) == st);
    assert(path_rest(r, Platform::Windows) == r);
    assert(physical_root(r, Platform::Windows));
    assert(!has_leading_cur_dir(r, Platform::Windows));
    lemma_rooted_names_segments(ns, st);
    lemma_name_segments_components(ns, false);
    assert(path_components(r, Platform::Windows) =~= seq![ComponentView::RootDir]
        + name_components(ns));
}

/// A path that is only a verbatim prefix has that prefix as its one component.
proof fn lemma_bare_verbatim_components(buf: Seq<char>, k: PrefixView)
    requires
        parse_prefix(buf) == Some((k, buf.len() as int)),
        prefix_is_verbatim(k),
    ensures
        path_components(buf, Platform::Windows) == seq![ComponentView::Prefix(k, buf)],
{
    let rest = path_rest(buf, Platform::Windows);
    assert(rest =~= Seq::<char>::empty());
    assert(buf.take(buf.len() as int) =~= buf);
    assert(!physical_root(buf, Platform::Windows));
    assert(!has_leading_cur_dir(buf, Platform::Windows));
    let st = path_style(buf, Platform::Windows);
    let e = Seq::<char>::empty();
    assert(segments(rest, st) =~= seq![e]);
    lemma_one_empty_segment(path_verbatim(buf, Platform::Windows));
    assert(path_components(buf, Platform::Windows) =~= seq![ComponentView::Prefix(k, buf)]);
}

/// After a verbatim prefix, a root keeps the prefix and names are added.
proof fn lemma_fold_root_names(buf: Seq<ComponentView>, ns: Seq<Seq<char>>)
    requires
        buf.len() > 0,
    ensures
        verbatim_fold(buf, seq![ComponentView::RootDir] + name_components(ns)) == buf.take(
            1,
        ).push(ComponentView::RootDir) + name_components(ns),
    decreases ns.len(),
{
    let cs = seq![ComponentView::RootDir] + name_components(ns);
    if ns.len() == 0 {
        assert(cs =~= seq![ComponentView::RootDir]);
        assert(cs.drop_last() =~= Seq::<ComponentView>::empty());
        assert(cs.last() == ComponentView::RootDir);
        assert(verbatim_fold(buf, cs.drop_last()) == buf);
        assert(name_components(ns) =~= Seq::<ComponentView>::empty());
        assert(buf.take(1).push(ComponentView::RootDir) + name_components(ns) =~= buf.take(
            1,
        ).push(ComponentView::RootDir));
    } else {
        let d = ns.drop_last();
        lemma_fold_root_names(buf, d);
        assert(cs.drop_last() =~= seq![ComponentView::RootDir] + name_components(d));
        assert(cs.last() == ComponentView::Normal(ns.last()));
        assert((buf.take(1).push(ComponentView::RootDir) + name_components(d)).push(
            ComponentView::Normal(ns.last()),
        ) =~= buf.take(1).push(ComponentView::RootDir) + name_components(ns));
    }
}

/// A prefix, a root and names are rebuilt as the prefix text and `rooted_names`.
proof fn lemma_rebuild_root_names(k: PrefixView, t: Seq<char>, ns: Seq<Seq<char>>)
    ensures
        rebuild(seq![ComponentView::Prefix(k, t), ComponentView::RootDir] + name_components(ns))
            == t + rooted_names(ns),
    decreases ns.len(),
{
    let p = ComponentView::Prefix(k, t);
    let cs = seq![p, ComponentView::RootDir] + name_components(ns);
    assert(seq![p].drop_last() =~= Seq::<ComponentView>::empty());
    assert(seq![p].last() == p);
    assert(rebuild(Seq::<ComponentView>::empty()) =~= Seq::<char>::empty());
    assert(rebuild(seq![p]) =~= t);
    assert(seq![p, ComponentView::RootDir].drop_last() =~= seq![p]);
    assert(rebuild(seq![p, ComponentView::RootDir]) =~= t + seq!['\\']);
    if ns.len() == 0 {
        assert(cs =~= seq![p, ComponentView::RootDir]);
    } else if ns.len() == 1 {
        assert(cs.drop_last() =~= seq![p, ComponentView::RootDir]);
        assert(cs.last() == ComponentView::Normal(ns[0]));
        assert(cs[cs.len() - 2] == ComponentView::RootDir);
        assert(t + seq!['\\'] + ns[0] =~= t + rooted_names(ns));
    } else {
        let d = ns.drop_last();
        lemma_rebuild_root_names(k, t, d);
        assert(cs.drop_last() =~= seq![p, ComponentView::RootDir] + name_components(d));
        assert(cs.last() == ComponentView::Normal(ns.last()));
        assert(cs[cs.len() - 2] == ComponentView::Normal(d.last()));
        assert((t + rooted_names(d)).push('\\') + ns.last() =~= t + rooted_names(ns));
    }
}

/// Pushing a path without prefix whose components are a root and plain names onto a
/// path that is only a verbatim prefix gives the prefix, then `\` before each name.
proof fn lemma_push_onto_verbatim(
    buf: Seq<char>,
    k: PrefixView,
    p: Seq<char>,
    ns: Seq<Seq<char>>,
)
    requires
        parse_prefix(buf) == Some((k, buf.len() as int)),
        prefix_is_verbatim(k),
        plain_names(ns),
        p.len() > 0,
        parse_prefix(p) is None,
        path_components(p, Platform::Windows) == seq![ComponentView::RootDir] + name_components(ns),
    ensures
        windows_push(buf, p) == buf + rooted_names(ns),
{
    assert(!path_is_absolute(p, Platform::Windows));
    assert(path_verbatim(buf, Platform::Windows));
    lemma_bare_verbatim_components(buf, k);
    lemma_fold_root_names(seq![ComponentView::Prefix(k, buf)], ns);
    assert(seq![ComponentView::Prefix(k, buf)].take(1).push(ComponentView::RootDir)
        =~= seq![ComponentView::Prefix(k, buf), ComponentView::RootDir]);
    lemma_rebuild_root_names(k, buf, ns);
}

/// Pushing `rooted_names(ns)` onto a path that is only a verbatim prefix appends it.
proof fn lemma_push_rooted_onto_verbatim(buf: Seq<char>, k: PrefixView, ns: Seq<Seq<char>>)
    requires
        parse_prefix(buf) == Some((k, buf.len() as int)),
        prefix_is_verbatim(k),
        plain_names(ns),
    ensures
        windows_push(buf, rooted_names(ns)) == buf + rooted_names(ns),
{
    lemma_rooted_names_components(ns);
    lemma_rooted_names_start(ns);
    lemma_push_onto_verbatim(buf, k, rooted_names(ns), ns);
}

/// No segment holds a separator.
proof fn lemma_segments_no_sep(s: Seq<char>, style: SepStyle)
    ensures
        forall|i: int, j: int|
            0 <= i < segments(s, style).len() && 0 <= j < segments(s, style)[i].len() ==> !is_sep(
                style,
                #[trigger] segments(s, style)[i][j],
            ),
    decreases s.len(),
{
    crate::path::lemma_segments_nonempty(s, style);
    if s.len() > 0 {
        lemma_segments_no_sep(s.drop_last(), style);
        crate::path::lemma_segments_nonempty(s.drop_last(), style);
        let segs = segments(s.drop_last(), style);
        if !is_sep(style, s.last()) {
            let u = segs.update(segs.len() - 1, segs.last().push(s.last()));
            assert forall|i: int, j: int| 0 <= i < u.len() && 0 <= j < u[i].len() implies !is_sep(
                style,
                #[trigger] u[i][j],
            ) by {
                if i == segs.len() - 1 && j < segs.last().len() {
                    assert(u[i][j] == segs[i][j]);
                }
            }
        } else {
            let u = segs.push(Seq::<char>::empty());
            assert forall|i: int, j: int| 0 <= i < u.len() && 0 <= j < u[i].len() implies !is_sep(
                style,
                #[trigger] u[i][j],
            ) by {
                assert(u[i] == segs[i]);
            }
        }
    }
}

/// Outside a verbatim path, segments without `/` or `\` give `..` or plain names.
proof fn lemma_plain_segment_components(segs: Seq<Seq<char>>)
    requires
        forall|i: int, j: int|
            0 <= i < segs.len() && 0 <= j < segs[i].len() ==> !is_sep(
                SepStyle::SlashOrBackslash,
                #[trigger] segs[i][j],
            ),
    ensures
        forall|i: int|
            0 <= i < segment_components(segs, false).len() ==> {
                let c = #[trigger] segment_components(segs, false)[i];
                c is ParentDir || (c is Normal && plain_name(c->Normal_0))
            },
    decreases segs.len(),
{
    if segs.len() > 0 {
        lemma_plain_segment_components(segs.drop_last());
        let last = segs.last();
        assert forall|j: int| 0 <= j < last.len() implies !is_sep(
            SepStyle::SlashOrBackslash,
            last[j],
        ) by {
            assert(last[j] == segs[segs.len() - 1][j]);
        }
        let a = segment_components(segs.drop_last(), false);
        let c = segment_component(last, false);
        assert forall|i: int| 0 <= i < (a + c).len() implies {
            let x = #[trigger] (a + c)[i];
            x is ParentDir || (x is Normal && plain_name(x->Normal_0))
        } by {
            if i >= a.len() {
                assert((a + c)[i] == c[i - a.len()]);
            }
        }
    }
}

/// The empty path has no components.
proof fn lemma_empty_components()
    ensures
        path_components(Seq::<char>::empty(), Platform::Windows).len() == 0,
{
    let e = Seq::<char>::empty();
    assert(parse_prefix(e) is None);
    assert(!physical_root(e, Platform::Windows));
    assert(!has_leading_cur_dir(e, Platform::Windows));
    assert(segments(e, SepStyle::SlashOrBackslash) =~= seq![e]);
    lemma_one_empty_segment(false);
    assert(path_components(e, Platform::Windows) =~= Seq::<ComponentView>::empty());
}

/// `\\?\UNC\server\share` and `rooted_names(ns)` after it: a verbatim share prefix and
/// a root, so more than one component.
proof fn lemma_rooted_verbatim_share(server: Seq<char>, share: Seq<char>, ns: Seq<Seq<char>>)
    requires
        plain_name(server),
        plain_name(share),
        plain_names(ns),
    ensures
        parse_prefix(verbatim_share(server, share) + rooted_names(ns)) == Some(
            (PrefixView::VerbatimUNC(server, share), verbatim_share(server, share).len() as int),
        ),
        path_components(verbatim_share(server, share) + rooted_names(ns), Platform::Windows).len()
            >= 2,
{
    let v = verbatim_share(server, share);
    let x = v + rooted_names(ns);
    lemma_rooted_names_start(ns);
    lemma_parse_verbatim_share(server, share, rooted_names(ns));
    assert(path_rest(x, Platform::Windows) =~= rooted_names(ns));
    assert(path_style(x, Platform::Windows) == SepStyle::Backslash);
    assert(physical_root(x, Platform::Windows));
}

/// A normalised drive path `C:\a\b` (a drive, then a `\` before each name, no `.`,
/// `..` or empty name) has the verbatim form `\\?\C:\a\b`, and the verbatim form of
/// that is itself.
pub proof fn lemma_verbatim_of_drive_path(d: char, ns: Seq<Seq<char>>)
    requires
        is_drive_letter(d),
        plain_names(ns),
    ensures
        spec_verbatim_path(seq![d, ':'] + rooted_names(ns)) == verbatim_start() + seq![d, ':']
            + rooted_names(ns),
        spec_verbatim_path(verbatim_start() + seq![d, ':'] + rooted_names(ns)) == verbatim_start()
            + seq![d, ':'] + rooted_names(ns),
{
    let r = rooted_names(ns);
    let a = seq![d, ':'] + r;
    lemma_rooted_names_start(ns);
    lemma_parse_disk(d, r);
    assert(a.skip(2) =~= r);
    assert(a.take(2) =~= seq![d, ':']);
    let buf = verbatim_start() + seq![d, ':'];
    lemma_parse_verbatim_disk(d, Seq::empty());
    assert(buf + Seq::<char>::empty() =~= buf);
    lemma_push_rooted_onto_verbatim(buf, PrefixView::VerbatimDisk(ascii_upper(d)), ns);
    lemma_parse_verbatim_disk(d, r);
}

/// A normalised server share path `\\server\share`, alone or followed by
/// `rooted_names(ns)`, has the verbatim form `\\?\UNC\server\share` followed by the
/// same rest, or by a `\` where there was none; the verbatim form of that is itself.
/// (A server named `?` would make the path a verbatim one.)
pub proof fn lemma_verbatim_of_share_path(
    server: Seq<char>,
    share: Seq<char>,
    rest: Seq<char>,
    ns: Seq<Seq<char>>,
)
    requires
        plain_name(server),
        plain_name(share),
        server != seq!['?'],
        plain_names(ns),
        rest.len() == 0 || rest == rooted_names(ns),
    ensures
        spec_verbatim_path(plain_share(server, share) + rest) == verbatim_share(server, share) + (
        if rest.len() == 0 {
            seq!['\\']
        } else {
            rest
        }),
        spec_verbatim_path(
            verbatim_share(server, share) + (if rest.len() == 0 {
                seq!['\\']
            } else {
                rest
            }),
        ) == verbatim_share(server, share) + (if rest.len() == 0 {
            seq!['\\']
        } else {
            rest
        }),
{
    let a = plain_share(server, share) + rest;
    let n = plain_share(server, share).len() as int;
    let v = verbatim_share(server, share);
    lemma_rooted_names_start(ns);
    lemma_parse_share(server, share, rest);
    assert(a.skip(n) =~= rest);
    let ns2 = if rest.len() == 0 {
        Seq::<Seq<char>>::empty()
    } else {
        ns
    };
    if rest.len() == 0 {
        lemma_empty_components();
        assert(rooted_names(ns2) == seq!['\\']);
    } else {
        lemma_rooted_names_components(ns);
    }
    lemma_parse_verbatim_share(server, share, Seq::empty());
    assert(v + Seq::<char>::empty() =~= v);
    lemma_push_rooted_onto_verbatim(v, PrefixView::VerbatimUNC(server, share), ns2);
    lemma_rooted_verbatim_share(server, share, ns2);
}

/// A path with a verbatim prefix of the kinds `\\?\prefix` or `\\?\C:` is its own
/// verbatim form.
pub proof fn lemma_verbatim_keeps_verbatim(a: Seq<char>)
    requires
        parse_prefix(a) matches Some((k, _)) && (k is Verbatim || k is VerbatimDisk),
    ensures
        spec_verbatim_path(a) == a,
{
}

/// A bare verbatim server share `\\?\UNC\server\share` gains a root `\`; followed by
/// `rooted_names(ns)` it is its own verbatim form.
pub proof fn lemma_verbatim_share_gains_root(
    server: Seq<char>,
    share: Seq<char>,
    ns: Seq<Seq<char>>,
)
    requires
        plain_name(server),
        plain_name(share),
        plain_names(ns),
    ensures
        spec_verbatim_path(verbatim_share(server, share)) == verbatim_share(server, share).push(
            '\\',
        ),
        spec_verbatim_path(verbatim_share(server, share) + rooted_names(ns)) == verbatim_share(
            server,
            share,
        ) + rooted_names(ns),
{
    let v = verbatim_share(server, share);
    let k = PrefixView::VerbatimUNC(server, share);
    lemma_parse_verbatim_share(server, share, Seq::empty());
    assert(v + Seq::<char>::empty() =~= v);
    lemma_bare_verbatim_components(v, k);
    let none = Seq::<Seq<char>>::empty();
    assert(rooted_names(none) == seq!['\\']);
    lemma_push_rooted_onto_verbatim(v, k, none);
    assert(v + seq!['\\'] =~= v.push('\\'));
    lemma_rooted_verbatim_share(server, share, ns);
}

/// A drive path with a root, whose rest is not itself a prefixed path and names no
/// `..`, has a verbatim form that starts with `\\?\` and the same drive, and whose
/// components after the prefix are those of the path after its prefix: the root and
/// the same names, however the path wrote its separators.
pub proof fn lemma_verbatim_drive_components(a: Seq<char>)
    requires
        parse_prefix(a) matches Some((k, _)) && k is Disk,
        physical_root(a, Platform::Windows),
        parse_prefix(a.skip(2)) is None,
        forall|i: int|
            0 <= i < path_components(a, Platform::Windows).len() ==> !(#[trigger] path_components(
                a,
                Platform::Windows,
            )[i] is ParentDir),
    ensures
        spec_verbatim_path(a).take(4) == verbatim_start(),
        parse_prefix(spec_verbatim_path(a)) == Some(
            (PrefixView::VerbatimDisk(parse_prefix(a).unwrap().0->Disk_0), 6int),
        ),
        path_components(spec_verbatim_path(a), Platform::Windows).skip(1) == path_components(
            a,
            Platform::Windows,
        ).skip(1),
{
    let d = a[0];
    let r = a.skip(2);
    let st = SepStyle::SlashOrBackslash;
    assert(a =~= seq![d, ':'] + r);
    assert(a.take(2) =~= seq![d, ':']);
    assert(path_rest(a, Platform::Windows) == r);
    assert(path_style(a, Platform::Windows) == st);
    let cs = segment_components(segments(r, st), false);
    let ca = path_components(a, Platform::Windows);
    assert(ca =~= seq![ComponentView::Prefix(parse_prefix(a).unwrap().0, seq![d, ':']),
        ComponentView::RootDir] + cs);
    // The names of the path.
    lemma_segments_no_sep(r, st);
    lemma_plain_segment_components(segments(r, st));
    assert forall|i: int| 0 <= i < cs.len() implies #[trigger] cs[i] is Normal && plain_name(
        cs[i]->Normal_0,
    ) by {
        assert(ca[i + 2] == cs[i]);
    }
    let ns = Seq::new(cs.len(), |i: int| cs[i]->Normal_0);
    assert(name_components(ns) =~= cs);
    assert forall|i: int| 0 <= i < ns.len() implies plain_name(#[trigger] ns[i]) by {
        assert(cs[i] is Normal);
    }
    // The rest alone: a root and the names.
    assert(path_rest(r, Platform::Windows) == r);
    assert(physical_root(r, Platform::Windows));
    assert(!has_leading_cur_dir(r, Platform::Windows));
    assert(path_components(r, Platform::Windows) =~= seq![ComponentView::RootDir] + cs);
    // Pushed onto `\\?\C:`.
    let buf = verbatim_start() + seq![d, ':'];
    let vk = PrefixView::VerbatimDisk(ascii_upper(d));
    lemma_parse_verbatim_disk(d, Seq::empty());
    assert(buf + Seq::<char>::empty() =~= buf);
    assert(spec_verbatim_path(a) == windows_push(buf, r));
    lemma_push_onto_verbatim(buf, vk, r, ns);
    let v = buf + rooted_names(ns);
    assert(v =~= verbatim_start() + seq![d, ':'] + rooted_names(ns));
    assert(v.take(4) =~= verbatim_start());
    // The verbatim form parsed again.
    lemma_rooted_names_start(ns);
    lemma_parse_verbatim_disk(d, rooted_names(ns));
    assert(path_rest(v, Platform::Windows) =~= rooted_names(ns));
    assert(path_style(v, Platform::Windows) == SepStyle::Backslash);
    assert(physical_root(v, Platform::Windows));
    assert(!has_leading_cur_dir(v, Platform::Windows));
    lemma_rooted_names_segments(ns, SepStyle::Backslash);
    lemma_name_segments_components(ns, true);
    assert(path_components(v, Platform::Windows) =~= seq![ComponentView::Prefix(vk, v.take(6)),
        ComponentView::RootDir] + name_components(ns));
    assert(path_components(v, Platform::Windows).skip(1) =~= ca.skip(1));
}

} // verus!
