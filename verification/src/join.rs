//! Extending paths, joining components into a path, and the parent of a path.
use vstd::prelude::*;
use crate::path::{
    components, copy_component, has_root, is_absolute, lemma_views_push, path_components,
    path_has_root, path_is_absolute, path_verbatim, prefix_len, views, Component, ComponentView,
};
use crate::prefix::{
    is_sep, is_sep_char, main_separator, main_separator_char, path_prefix, prefix_info,
    lemma_parse_prefix_len, Platform, Prefix, SepStyle,
};

verus! {

/// The text of one component.
pub open spec fn component_str(c: ComponentView, platform: Platform) -> Seq<char> {
    match c {
        ComponentView::Prefix(_, t) => t,
        ComponentView::RootDir => seq![main_separator(platform)],
        ComponentView::CurDir => seq!['.'],
        ComponentView::ParentDir => seq!['.', '.'],
        ComponentView::Normal(s) => s,
    }
}

/// Extending a Unix path `buf` by `p`: a rooted `p` replaces `buf`; otherwise `p` is
/// appended, after a `/` where `buf` is neither empty nor ends with one.
pub open spec fn unix_push(buf: Seq<char>, p: Seq<char>) -> Seq<char> {
    if path_has_root(p, Platform::Unix) {
        p
    } else if buf.len() == 0 || buf.last() == '/' {
        buf + p
    } else {
        buf.push('/') + p
    }
}

/// One step of extending the components of a verbatim path: a root keeps only the
/// prefix, `.` is dropped, `..` leaves a name (and is dropped otherwise).
pub open spec fn verbatim_step(buf: Seq<ComponentView>, c: ComponentView) -> Seq<ComponentView> {
    match c {
        ComponentView::RootDir => (if buf.len() > 0 {
            buf.take(1)
        } else {
            buf
        }).push(c),
        ComponentView::CurDir => buf,
        ComponentView::ParentDir => if buf.len() > 0 && buf.last() is Normal {
            buf.drop_last()
        } else {
            buf
        },
        _ => buf.push(c),
    }
}

pub open spec fn verbatim_fold(buf: Seq<ComponentView>, cs: Seq<ComponentView>) -> Seq<
    ComponentView,
>
    decreases cs.len(),
{
    if cs.len() == 0 {
        buf
    } else {
        verbatim_step(verbatim_fold(buf, cs.drop_last()), cs.last())
    }
}

/// Whether a `\` goes between this component and a following one.
pub open spec fn sep_after(c: ComponentView) -> bool {
    match c {
        ComponentView::RootDir => false,
        ComponentView::Prefix(k, _) => !(k is Disk),
        _ => true,
    }
}

/// The text of a verbatim path rebuilt from its components.
pub open spec fn rebuild(cs: Seq<ComponentView>) -> Seq<char>
    decreases cs.len(),
{
    if cs.len() == 0 {
        seq![]
    } else {
        let r = rebuild(cs.drop_last());
        let c = cs.last();
        let sep = cs.len() > 1 && sep_after(cs[cs.len() - 2]) && !(c is RootDir);
        (if sep {
            r.push('\\')
        } else {
            r
        }) + component_str(c, Platform::Windows)
    }
}

/// Extending a Windows path `buf` by `p`: an absolute `p`, or one with a prefix,
/// replaces `buf`; after a verbatim prefix the components are combined and the text
/// rebuilt; a `p` with a root keeps only the prefix of `buf`; otherwise `p` is
/// appended, after a `\` where `buf` does not end in a separator or is a bare drive.
pub open spec fn windows_push(buf: Seq<char>, p: Seq<char>) -> Seq<char> {
    let need_sep = buf.len() > 0 && !is_sep(SepStyle::SlashOrBackslash, buf.last()) && !(
    prefix_info(buf, Platform::Windows) matches Some((k, n)) && k is Disk && n == buf.len());
    if path_is_absolute(p, Platform::Windows) || prefix_info(p, Platform::Windows) is Some {
        p
    } else if path_verbatim(buf, Platform::Windows) && p.len() > 0 {
        rebuild(
            verbatim_fold(
                path_components(buf, Platform::Windows),
                path_components(p, Platform::Windows),
            ),
        )
    } else if path_has_root(p, Platform::Windows) {
        buf.take(prefix_len(buf, Platform::Windows)) + p
    } else if need_sep {
        buf.push('\\') + p
    } else {
        buf + p
    }
}

/// Extending path `buf` by path `p` (`PathBuf::push`).
pub open spec fn path_push(buf: Seq<char>, p: Seq<char>, platform: Platform) -> Seq<char> {
    match platform {
        Platform::Unix => unix_push(buf, p),
        Platform::Windows => windows_push(buf, p),
    }
}

/// The path built by pushing the components one after the other onto an empty path.
pub open spec fn join_components(cs: Seq<ComponentView>, platform: Platform) -> Seq<char>
    decreases cs.len(),
{
    if cs.len() == 0 {
        Seq::empty()
    } else {
        path_push(join_components(cs.drop_last(), platform), component_str(cs.last(), platform), platform)
    }
}

/// The parent of a path: all its components but the last, joined again (so `a//b/c`
/// gives `a/b`), or none where the path is empty or ends in a root or prefix.
pub open spec fn spec_parent(s: Seq<char>, platform: Platform) -> Option<Seq<char>> {
    let cs = path_components(s, platform);
    if cs.len() == 0 || cs.last() is RootDir || cs.last() is Prefix {
        None
    } else {
        Some(join_components(cs.drop_last(), platform))
    }
}

/// `String::push`, which appends one character.
#[verifier::external_body]
pub(crate) fn push_char(s: &mut String, c: char)
    ensures
        final(s)@ == old(s)@.push(c),
{
    s.push(c);
}

/// A string holding a single character.
pub(crate) fn char_string(c: char) -> (r: String)
    ensures
        r@ == seq![c],
{
    let mut r = String::new();
    push_char(&mut r, c);
    assert(r@ =~= seq![c]);
    r
}

fn last_char_is(buf: &str, style: SepStyle) -> (r: bool)
    ensures
        r == (buf@.len() > 0 && is_sep(style, buf@.last())),
{
    let n = buf.unicode_len();
    n > 0 && is_sep_char(style, buf.get_char(n - 1))
}

fn unix_push_exec(buf: &mut String, p: &str)
    ensures
        final(buf)@ == unix_push(old(buf)@, p@),
{
    if has_root(p, Platform::Unix) {
        *buf = String::from_str(p);
    } else {
        let n = buf.as_str().unicode_len();
        if n > 0 && !last_char_is(buf.as_str(), SepStyle::Slash) {
            push_char(buf, '/');
        }
        buf.append(p);
    }
}

/// The components of a verbatim path extended by further components.
fn verbatim_fold_exec(buf: Vec<Component>, cs: &Vec<Component>) -> (r: Vec<Component>)
    ensures
        views(r@) == verbatim_fold(views(buf@), views(cs@)),
{
    let mut r = buf;
    let ghost start = views(r@);
    let mut i: usize = 0;
    while i < cs.len()
        invariant
            i <= cs@.len(),
            views(r@) == verbatim_fold(start, views(cs@).take(i as int)),
        decreases cs@.len() - i,
    {
        let ghost before = r@;
        assert(views(cs@).take(i + 1).drop_last() =~= views(cs@).take(i as int));
        match &cs[i] {
            Component::RootDir => {
                r.truncate(1);
                let ghost mid = r@;
                assert(views(mid) =~= (if before.len() > 0 {
                    views(before).take(1)
                } else {
                    views(before)
                }));
                r.push(Component::RootDir);
                proof {
                    lemma_views_push(mid, Component::RootDir);
                }
            },
            Component::CurDir => {},
            Component::ParentDir => {
                let n = r.len();
                if n > 0 {
                    if let Component::Normal(_) = &r[n - 1] {
                        r.pop();
                        assert(views(r@) =~= views(before).drop_last());
                    }
                }
            },
            c => {
                let c2 = copy_component(c);
                r.push(c2);
                proof {
                    lemma_views_push(before, c2);
                }
            },
        }
        i = i + 1;
    }
    assert(views(cs@).take(cs@.len() as int) =~= views(cs@));
    r
}

/// The text of a verbatim path rebuilt from its components.
fn rebuild_exec(cs: &Vec<Component>) -> (r: String)
    ensures
        r@ == rebuild(views(cs@)),
{
    let mut r = String::new();
    let mut need_sep = false;
    let mut i: usize = 0;
    while i < cs.len()
        invariant
            i <= cs@.len(),
            r@ == rebuild(views(cs@).take(i as int)),
            need_sep == (i > 0 && sep_after(views(cs@)[i - 1])),
        decreases cs@.len() - i,
    {
        let ghost prev = views(cs@).take(i as int);
        assert(views(cs@).take(i + 1).drop_last() =~= prev);
        let c = &cs[i];
        let is_root = match c {
            Component::RootDir => true,
            _ => false,
        };
        if need_sep && !is_root {
            push_char(&mut r, '\\');
        }
        push_component_text(&mut r, c, Platform::Windows);
        need_sep = match c {
            Component::RootDir => false,
            Component::Prefix(Prefix::Disk(_), _) => false,
            _ => true,
        };
        i = i + 1;
    }
    assert(views(cs@).take(cs@.len() as int) =~= views(cs@));
    r
}

/// Appends the text of a component.
fn push_component_text(r: &mut String, c: &Component, platform: Platform)
    ensures
        final(r)@ == old(r)@ + component_str(c@, platform),
{
    match c {
        Component::Prefix(_, t) => r.append(t.as_str()),
        Component::RootDir => push_char(r, main_separator_char(platform)),
        Component::CurDir => push_char(r, '.'),
        Component::ParentDir => {
            push_char(r, '.');
            push_char(r, '.');
        },
        Component::Normal(s) => r.append(s.as_str()),
    }
    assert(r@ =~= old(r)@ + component_str(c@, platform));
}

fn windows_push_exec(buf: &mut String, p: &str)
    ensures
        final(buf)@ == windows_push(old(buf)@, p@),
{
    let n = buf.as_str().unicode_len();
    let binfo = path_prefix(buf.as_str(), Platform::Windows);
    proof {
        lemma_parse_prefix_len(buf@);
    }
    let (bplen, bverbatim, bdisk) = match &binfo {
        Some((k, len)) => {
            let v = match k {
                Prefix::Verbatim(_) | Prefix::VerbatimUNC(..) | Prefix::VerbatimDisk(_) => true,
                _ => false,
            };
            let d = match k {
                Prefix::Disk(_) => true,
                _ => false,
            };
            (*len, v, d)
        },
        None => (0, false, false),
    };
    let need_sep = n > 0 && !last_char_is(buf.as_str(), SepStyle::SlashOrBackslash) && !(bdisk
        && bplen == n);
    let p_prefixed = path_prefix(p, Platform::Windows).is_some();
    if is_absolute(p, Platform::Windows) || p_prefixed {
        *buf = String::from_str(p);
    } else if bverbatim && p.unicode_len() > 0 {
        let bc = components(buf.as_str(), Platform::Windows);
        let pc = components(p, Platform::Windows);
        let folded = verbatim_fold_exec(bc, &pc);
        *buf = rebuild_exec(&folded);
    } else if has_root(p, Platform::Windows) {
        let mut r = String::from_str(buf.as_str().substring_char(0, bplen));
        r.append(p);
        *buf = r;
    } else {
        if need_sep {
            push_char(buf, '\\');
        }
        buf.append(p);
    }
}

/// Extends the path in `buf` by the path `p` (`PathBuf::push`).
pub fn push_str_path(buf: &mut String, p: &str, platform: Platform)
    ensures
        final(buf)@ == path_push(old(buf)@, p@, platform),
{
    match platform {
        Platform::Unix => unix_push_exec(buf, p),
        Platform::Windows => windows_push_exec(buf, p),
    }
}

/// Extends the path in `buf` by one component.
pub fn push_component(buf: &mut String, c: &Component, platform: Platform)
    ensures
        final(buf)@ == path_push(old(buf)@, component_str(c@, platform), platform),
{
    let mut t = String::new();
    push_component_text(&mut t, c, platform);
    assert(t@ =~= component_str(c@, platform));
    push_str_path(buf, t.as_str(), platform);
}

/// The path made of the given components.
pub fn join_all(cs: &Vec<Component>, platform: Platform) -> (r: String)
    ensures
        r@ == join_components(views(cs@), platform),
{
    let mut r = String::new();
    let mut i: usize = 0;
    while i < cs.len()
        invariant
            i <= cs@.len(),
            r@ == join_components(views(cs@).take(i as int), platform),
        decreases cs@.len() - i,
    {
        push_component(&mut r, &cs[i], platform);
        assert(views(cs@).take(i + 1).drop_last() =~= views(cs@).take(i as int));
        i = i + 1;
    }
    assert(views(cs@).take(cs@.len() as int) =~= views(cs@));
    r
}

/// The parent of a path (see [`spec_parent`]).
pub fn parent(path: &str, platform: Platform) -> (r: Option<String>)
    ensures
        r matches Some(p) ==> spec_parent(path@, platform) == Some(p@),
        r is None ==> spec_parent(path@, platform) is None,
{
    let mut cs = components(path, platform);
    let n = cs.len();
    if n == 0 {
        return None;
    }
    match cs[n - 1] {
        Component::RootDir | Component::Prefix(..) => {
            return None;
        },
        _ => {},
    }
    let ghost all = views(cs@);
    cs.pop();
    assert(views(cs@) =~= all.drop_last());
    Some(join_all(&cs, platform))
}

/// `base` extended by `p` (`Path::join`).
pub fn join(base: &str, p: &str, platform: Platform) -> (r: String)
    ensures
        r@ == path_push(base@, p@, platform),
{
    let mut r = String::from_str(base);
    push_str_path(&mut r, p, platform);
    r
}

} // verus!
