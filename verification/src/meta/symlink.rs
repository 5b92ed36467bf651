//! Symbolic links: where they point, whether the target exists, and how they show.
use vstd::prelude::*;
use crate::color::{ColoredString, Colors, Elem, plain_style, styled_text};
use crate::flags::Flags;
use crate::join::{join, parent, path_push, push_char, spec_parent};
use crate::meta::utils::{
    lemma_relative_path_leads_to_path, relative_path, relative_path_panics, resolve,
    spec_relative_path,
};
use crate::path::{is_absolute, path_components, path_has_root, path_is_absolute};
use crate::path_laws::{lemma_unix_push_components, without_cur};
use crate::prefix::{main_separator, main_separator_char, Platform};

verus! {

/// What a symbolic link holds: its target as shown, if any, and whether the target
/// exists.
pub struct SymLinkView {
    pub target: Option<Seq<char>>,
    pub valid: bool,
}

/// A symbolic link, as a listing shows it.
pub struct SymLink {
    target: Option<String>,
    valid: bool,
}

/// The view of an optional string.
pub open spec fn opt_view(o: Option<String>) -> Option<Seq<char>> {
    match o {
        Some(s) => Some(s@),
        None => None,
    }
}

impl View for SymLink {
    type V = SymLinkView;

    closed spec fn view(&self) -> SymLinkView {
        SymLinkView { target: opt_view(self.target), valid: self.valid }
    }
}

/// The text put before a target for an entry named `.` (`../`) or `..` (`../../`),
/// with the platform's separator.
pub open spec fn target_prefix(file_name: Seq<char>, platform: Platform) -> Seq<char> {
    let sep = main_separator(platform);
    if file_name == seq!['.'] {
        seq!['.', '.', sep]
    } else if file_name == seq!['.', '.'] {
        seq!['.', '.', sep, '.', '.', sep]
    } else {
        seq![]
    }
}

/// The target text shown for a link listed under `file_name`.
pub open spec fn spec_symlink_string(
    link: SymLinkView,
    file_name: Seq<char>,
    platform: Platform,
) -> Option<Seq<char>> {
    match link.target {
        Some(t) => Some(target_prefix(file_name, platform) + t),
        None => None,
    }
}

/// The element whose color a link's target is shown in.
pub open spec fn target_elem(link: SymLinkView) -> Elem {
    if link.valid {
        Elem::SymLink
    } else {
        Elem::MissingSymLinkTarget
    }
}

/// The text that follows a link's name in a listing: the arrow between spaces and
/// the target in its color, or nothing where there is no target.
pub open spec fn spec_render(
    link: SymLinkView,
    colors: Colors,
    arrow: Seq<char>,
    file_name: Seq<char>,
    platform: Platform,
) -> Seq<char> {
    match spec_symlink_string(link, file_name, platform) {
        Some(t) => seq![' '] + arrow + seq![' '] + styled_text(
            colors.spec_style(target_elem(link)),
            t,
        ),
        None => seq![],
    }
}

/// The path whose existence decides whether a link to `target`, found at `path`, is
/// valid: an absolute target itself, else the target taken from the directory that
/// holds the link. None where `path` has no parent.
pub open spec fn spec_target_location(
    path: Seq<char>,
    target: Seq<char>,
    platform: Platform,
) -> Option<Seq<char>> {
    if path_is_absolute(target, platform) {
        Some(target)
    } else {
        match spec_parent(path, platform) {
            Some(p) => Some(path_push(p, target, platform)),
            None => None,
        }
    }
}

/// The target that a link at `path` to `target` shows: an absolute target as it is,
/// else the target taken from the link's directory, relative to that directory.
pub open spec fn spec_shown_target(path: Seq<char>, target: Seq<char>, platform: Platform) -> Seq<
    char,
> {
    if path_is_absolute(target, platform) {
        target
    } else {
        let p = spec_parent(path, platform).unwrap();
        spec_relative_path(path_push(p, target, platform), p, platform)
    }
}

/// Whether `s` is `.` (`dots` 1) or `..` (`dots` 2).
fn is_dots(s: &String, dots: usize) -> (r: bool)
    requires
        dots == 1 || dots == 2,
    ensures
        r == (s@ == (if dots == 1 { seq!['.'] } else { seq!['.', '.'] })),
{
    let n = s.as_str().unicode_len();
    if n != dots {
        return false;
    }
    if s.as_str().get_char(0) != '.' {
        return false;
    }
    if dots == 2 && s.as_str().get_char(1) != '.' {
        return false;
    }
    assert(s@ =~= (if dots == 1 { seq!['.'] } else { seq!['.', '.'] }));
    true
}

impl SymLink {
    pub fn new(target: Option<String>, valid: bool) -> (r: SymLink)
        ensures
            r@ == (SymLinkView { target: opt_view(target), valid }),
    {
        SymLink { target, valid }
    }

    /// The link of a path that is not a symbolic link, or whose target cannot be read.
    pub fn unreadable() -> (r: SymLink)
        ensures
            r@ == (SymLinkView { target: None, valid: false }),
    {
        SymLink { target: None, valid: false }
    }

    /// The link found at `path` whose target reads `target`, where `valid` tells
    /// whether the path at [`spec_target_location`] exists.
    pub fn from_link(path: &str, target: &str, valid: bool, platform: Platform) -> (r: SymLink)
        requires
            spec_target_location(path@, target@, platform) is Some,
            !path_is_absolute(target@, platform) ==> !relative_path_panics(
                spec_target_location(path@, target@, platform).unwrap(),
                spec_parent(path@, platform).unwrap(),
                platform,
            ),
        ensures
            r@ == (SymLinkView {
                target: Some(spec_shown_target(path@, target@, platform)),
                valid,
            }),
    {
        if is_absolute(target, platform) {
            return SymLink { target: Some(String::from_str(target)), valid };
        }
        let parent = parent(path, platform).unwrap();
        let final_target = join(parent.as_str(), target, platform);
        let t = relative_path(final_target.as_str(), parent.as_str(), platform);
        SymLink { target: Some(t), valid }
    }

    /// The path whose existence decides whether the link is valid.
    pub fn target_location(path: &str, target: &str, platform: Platform) -> (r: Option<String>)
        ensures
            opt_view(r) == spec_target_location(path@, target@, platform),
    {
        if is_absolute(target, platform) {
            return Some(String::from_str(target));
        }
        match parent(path, platform) {
            Some(p) => Some(join(p.as_str(), target, platform)),
            None => None,
        }
    }

    /// The target as shown for an entry named `file_name`.
    pub fn symlink_string(&self, file_name: &String, platform: Platform) -> (r: Option<String>)
        ensures
            opt_view(r) == spec_symlink_string(self@, file_name@, platform),
    {
        match &self.target {
            None => None,
            Some(target) => {
                let sep = main_separator_char(platform);
                let mut prefix = String::new();
                if is_dots(file_name, 1) {
                    push_char(&mut prefix, '.');
                    push_char(&mut prefix, '.');
                    push_char(&mut prefix, sep);
                } else if is_dots(file_name, 2) {
                    push_char(&mut prefix, '.');
                    push_char(&mut prefix, '.');
                    push_char(&mut prefix, sep);
                    push_char(&mut prefix, '.');
                    push_char(&mut prefix, '.');
                    push_char(&mut prefix, sep);
                }
                assert(prefix@ =~= target_prefix(file_name@, platform));
                prefix.append(target.as_str());
                Some(prefix)
            },
        }
    }

    /// The text that follows the link's name in a listing.
    pub fn render(
        &self,
        colors: &Colors,
        flag: &Flags,
        file_name: &String,
        platform: Platform,
    ) -> (r: ColoredString)
        ensures
            r.style == plain_style(),
            r.content@ == spec_render(self@, *colors, flag.symlink_arrow@, file_name@, platform),
    {
        if let Some(target_string) = self.symlink_string(file_name, platform) {
            let elem = if self.valid {
                &Elem::SymLink
            } else {
                &Elem::MissingSymLinkTarget
            };
            let mut arrow = String::new();
            push_char(&mut arrow, ' ');
            arrow.append(flag.symlink_arrow.as_str());
            push_char(&mut arrow, ' ');
            let first = ColoredString::new(Colors::default_style(), arrow);
            let second = colors.colorize(target_string, elem);
            let mut res = first.to_string();
            let shown = second.to_string();
            res.append(shown.as_str());
            ColoredString::new(Colors::default_style(), res)
        } else {
            ColoredString::new(Colors::default_style(), String::new())
        }
    }
}

/// Where the link's directory names no `.` and no `..`, the target shown for a
/// relative link, taken from that directory, leads where the link's target does
/// (Unix paths).
pub proof fn lemma_shown_target_leads_to_target(path: Seq<char>, target: Seq<char>)
    requires
        !path_has_root(target, Platform::Unix),
        spec_parent(path, Platform::Unix) is Some,
        forall|i: int|
            0 <= i < path_components(spec_parent(path, Platform::Unix).unwrap(), Platform::Unix).len()
                ==> {
                let c = #[trigger] path_components(
                    spec_parent(path, Platform::Unix).unwrap(),
                    Platform::Unix,
                )[i];
                c is RootDir || c is Normal
            },
    ensures
        resolve(
            path_components(spec_parent(path, Platform::Unix).unwrap(), Platform::Unix)
                + path_components(spec_shown_target(path, target, Platform::Unix), Platform::Unix),
        ) == resolve(
            path_components(
                path_push(spec_parent(path, Platform::Unix).unwrap(), target, Platform::Unix),
                Platform::Unix,
            ),
        ),
{
    let p = spec_parent(path, Platform::Unix).unwrap();
    let full = path_push(p, target, Platform::Unix);
    if p.len() > 0 {
        assert(full[0] == p[0]);
    }
    lemma_relative_path_leads_to_path(full, p);
}

/// The target is shown as it is for every entry but `.` and `..`; for `.` it comes
/// after `../`, for `..` after `../../` (with the platform's separator).
pub proof fn lemma_shown_target_prefixed_only_for_dots(
    link: SymLinkView,
    file_name: Seq<char>,
    platform: Platform,
)
    ensures
        file_name != seq!['.'] && file_name != seq!['.', '.'] ==> spec_symlink_string(
            link,
            file_name,
            platform,
        ) == link.target,
        link.target is Some && file_name == seq!['.'] ==> spec_symlink_string(
            link,
            file_name,
            platform,
        ) == Some(seq!['.', '.', main_separator(platform)] + link.target.unwrap()),
        link.target is Some && file_name == seq!['.', '.'] ==> spec_symlink_string(
            link,
            file_name,
            platform,
        ) == Some(
            seq!['.', '.', main_separator(platform), '.', '.', main_separator(platform)]
                + link.target.unwrap(),
        ),
        link.target is None ==> spec_symlink_string(link, file_name, platform) is None,
{
    if let Some(t) = link.target {
        if file_name == seq!['.', '.'] {
            assert(file_name.len() != seq!['.'].len());
        }
        if file_name != seq!['.'] && file_name != seq!['.', '.'] {
            assert(seq![] + t =~= t);
        }
    }
}

/// The color of a link's target depends on whether the target exists, and on nothing
/// else: an existing one is shown as a link, a missing one as a missing target.
pub proof fn lemma_target_color_follows_validity(
    link: SymLinkView,
    colors: Colors,
    arrow: Seq<char>,
    file_name: Seq<char>,
    platform: Platform,
)
    requires
        link.target is Some,
    ensures
        link.valid ==> spec_render(link, colors, arrow, file_name, platform) == seq![' '] + arrow
            + seq![' '] + styled_text(
            colors.spec_style(Elem::SymLink),
            spec_symlink_string(link, file_name, platform).unwrap(),
        ),
        !link.valid ==> spec_render(link, colors, arrow, file_name, platform) == seq![' ']
            + arrow + seq![' '] + styled_text(
            colors.spec_style(Elem::MissingSymLinkTarget),
            spec_symlink_string(link, file_name, platform).unwrap(),
        ),
{
}

/// On Unix, a relative target is looked for from the directory that holds the link:
/// the location's components are that directory's followed by the target's (`.` left
/// out), `..` included.
pub proof fn lemma_target_location_from_link_directory(path: Seq<char>, target: Seq<char>)
    requires
        !path_has_root(target, Platform::Unix),
        spec_parent(path, Platform::Unix) is Some,
    ensures
        spec_target_location(path, target, Platform::Unix) is Some,
        without_cur(
            path_components(spec_target_location(path, target, Platform::Unix).unwrap(), Platform::Unix),
        ) == without_cur(
            path_components(spec_parent(path, Platform::Unix).unwrap(), Platform::Unix),
        ) + without_cur(path_components(target, Platform::Unix)),
{
    lemma_unix_push_components(spec_parent(path, Platform::Unix).unwrap(), target);
}

} // verus!
