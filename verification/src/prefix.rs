//! Platforms, separators, and the prefixes (`C:`, `\\server\share`, `\\?\...`) that
//! start Windows paths.
use vstd::prelude::*;

verus! {

/// The path syntax in use.
#[derive(Clone, Copy, PartialEq, Eq, Structural)]
pub enum Platform {
    /// Only `/` separates components; no prefixes.
    Unix,
    /// `\` and `/` separate components (only `\` after a verbatim prefix); paths may
    /// start with a prefix.
    Windows,
}

/// Which characters separate components.
#[derive(Clone, Copy, PartialEq, Eq, Structural)]
pub enum SepStyle {
    Slash,
    SlashOrBackslash,
    Backslash,
}

pub open spec fn is_sep(style: SepStyle, c: char) -> bool {
    match style {
        SepStyle::Slash => c == '/',
        SepStyle::SlashOrBackslash => c == '/' || c == '\\',
        SepStyle::Backslash => c == '\\',
    }
}

pub fn is_sep_char(style: SepStyle, c: char) -> (r: bool)
    ensures
        r == is_sep(style, c),
{
    match style {
        SepStyle::Slash => c == '/',
        SepStyle::SlashOrBackslash => c == '/' || c == '\\',
        SepStyle::Backslash => c == '\\',
    }
}

/// The separator that the platform writes between components.
pub open spec fn main_separator(platform: Platform) -> char {
    match platform {
        Platform::Unix => '/',
        Platform::Windows => '\\',
    }
}

pub fn main_separator_char(platform: Platform) -> (r: char)
    ensures
        r == main_separator(platform),
{
    match platform {
        Platform::Unix => '/',
        Platform::Windows => '\\',
    }
}

/// The mathematical form of a Windows prefix.
pub enum PrefixView {
    /// `\\?\prefix`
    Verbatim(Seq<char>),
    /// `\\?\UNC\server\share`
    VerbatimUNC(Seq<char>, Seq<char>),
    /// `\\?\C:`, with the drive letter in upper case
    VerbatimDisk(char),
    /// `\\.\device`
    DeviceNS(Seq<char>),
    /// `\\server\share`
    UNC(Seq<char>, Seq<char>),
    /// `C:`, with the drive letter in upper case
    Disk(char),
}

/// A Windows prefix.
pub enum Prefix {
    Verbatim(String),
    VerbatimUNC(String, String),
    VerbatimDisk(char),
    DeviceNS(String),
    UNC(String, String),
    Disk(char),
}

impl View for Prefix {
    type V = PrefixView;

    open spec fn view(&self) -> PrefixView {
        match self {
            Prefix::Verbatim(s) => PrefixView::Verbatim(s@),
            Prefix::VerbatimUNC(a, b) => PrefixView::VerbatimUNC(a@, b@),
            Prefix::VerbatimDisk(c) => PrefixView::VerbatimDisk(*c),
            Prefix::DeviceNS(s) => PrefixView::DeviceNS(s@),
            Prefix::UNC(a, b) => PrefixView::UNC(a@, b@),
            Prefix::Disk(c) => PrefixView::Disk(*c),
        }
    }
}

/// A verbatim prefix turns off the normalisation of the rest of the path.
pub open spec fn prefix_is_verbatim(k: PrefixView) -> bool {
    k is Verbatim || k is VerbatimUNC || k is VerbatimDisk
}

/// The character at `i` as prefix matching reads it: among the first eight, `/`
/// reads as `\`.
pub open spec fn norm_char(s: Seq<char>, i: int) -> char {
    if i < 8 && s[i] == '/' {
        '\\'
    } else {
        s[i]
    }
}

/// `s` holds the two characters `a b` at `i`, as prefix matching reads them.
pub open spec fn matches2(s: Seq<char>, i: int, a: char, b: char) -> bool {
    0 <= i && i + 2 <= s.len() && norm_char(s, i) == a && norm_char(s, i + 1) == b
}

/// The end of the component that starts at `i`: the first separator at or after `i`,
/// or the end of `s`.
pub open spec fn comp_end(s: Seq<char>, i: int, style: SepStyle) -> int
    decreases s.len() - i,
{
    if i >= s.len() || i < 0 {
        s.len() as int
    } else if is_sep(style, s[i]) {
        i
    } else {
        comp_end(s, i + 1, style)
    }
}

/// Where the component after the one ending at `e` starts.
pub open spec fn after_sep(s: Seq<char>, e: int) -> int {
    if e < s.len() {
        e + 1
    } else {
        e
    }
}

pub open spec fn is_drive_letter(c: char) -> bool {
    ('a' <= c && c <= 'z') || ('A' <= c && c <= 'Z')
}

pub open spec fn ascii_upper(c: char) -> char {
    if 'a' <= c && c <= 'z' {
        (((c as u8) - 32) as u8) as char
    } else {
        c
    }
}

/// The prefix of a Windows path and its length in characters, if it has one.
pub open spec fn parse_prefix(s: Seq<char>) -> Option<(PrefixView, int)> {
    if matches2(s, 0, '\\', '\\') {
        if matches2(s, 2, '?', '\\') && s[0] != '/' && s[1] != '/' && s[2] != '/' && s[3] != '/' {
            if s.len() >= 8 && norm_char(s, 4) == 'U' && norm_char(s, 5) == 'N' && norm_char(s, 6)
                == 'C' && norm_char(s, 7) == '\\' {
                let e1 = comp_end(s, 8, SepStyle::Backslash);
                let s2 = after_sep(s, e1);
                let e2 = comp_end(s, s2, SepStyle::Backslash);
                let share = s.subrange(s2, e2);
                Some(
                    (
                        PrefixView::VerbatimUNC(s.subrange(8, e1), share),
                        if share.len() > 0 {
                            e2
                        } else {
                            e1
                        },
                    ),
                )
            } else if s.len() >= 6 && is_drive_letter(s[4]) && s[5] == ':' && (s.len() == 6 || s[6]
                == '\\') {
                Some((PrefixView::VerbatimDisk(ascii_upper(s[4])), 6))
            } else {
                let e = comp_end(s, 4, SepStyle::Backslash);
                Some((PrefixView::Verbatim(s.subrange(4, e)), e))
            }
        } else if matches2(s, 2, '.', '\\') {
            let e = comp_end(s, 4, SepStyle::SlashOrBackslash);
            Some((PrefixView::DeviceNS(s.subrange(4, e)), e))
        } else {
            let e1 = comp_end(s, 2, SepStyle::SlashOrBackslash);
            let s2 = after_sep(s, e1);
            let e2 = comp_end(s, s2, SepStyle::SlashOrBackslash);
            if e1 > 2 && e2 > s2 {
                Some((PrefixView::UNC(s.subrange(2, e1), s.subrange(s2, e2)), e2))
            } else {
                None
            }
        }
    } else if s.len() >= 2 && is_drive_letter(s[0]) && s[1] == ':' {
        Some((PrefixView::Disk(ascii_upper(s[0])), 2))
    } else {
        None
    }
}

/// The prefix of a path on a platform: none on Unix.
pub open spec fn prefix_info(s: Seq<char>, platform: Platform) -> Option<(PrefixView, int)> {
    match platform {
        Platform::Unix => None,
        Platform::Windows => parse_prefix(s),
    }
}

pub open spec fn prefix_result_view(r: Option<(Prefix, usize)>) -> Option<(PrefixView, int)> {
    match r {
        Some((k, n)) => Some((k@, n as int)),
        None => None,
    }
}

proof fn lemma_comp_end_range(s: Seq<char>, i: int, style: SepStyle)
    requires
        0 <= i <= s.len(),
    ensures
        i <= comp_end(s, i, style) <= s.len(),
    decreases s.len() - i,
{
    if i < s.len() && !is_sep(style, s[i]) {
        lemma_comp_end_range(s, i + 1, style);
    }
}

pub proof fn lemma_parse_prefix_len(s: Seq<char>)
    ensures
        parse_prefix(s) matches Some((_, n)) ==> 0 < n <= s.len(),
{
    if matches2(s, 0, '\\', '\\') && s.len() >= 4 {
        lemma_comp_end_range(s, 4, SepStyle::Backslash);
        lemma_comp_end_range(s, 4, SepStyle::SlashOrBackslash);
        if s.len() >= 8 {
            let e1 = comp_end(s, 8, SepStyle::Backslash);
            lemma_comp_end_range(s, 8, SepStyle::Backslash);
            lemma_comp_end_range(s, after_sep(s, e1), SepStyle::Backslash);
        }
    }
    if matches2(s, 0, '\\', '\\') {
        lemma_comp_end_range(s, 2, SepStyle::SlashOrBackslash);
        let e1 = comp_end(s, 2, SepStyle::SlashOrBackslash);
        lemma_comp_end_range(s, after_sep(s, e1), SepStyle::SlashOrBackslash);
    }
}

fn norm_at(s: &str, n: usize, i: usize) -> (c: char)
    requires
        n == s@.len(),
        i < n,
    ensures
        c == norm_char(s@, i as int),
{
    let c = s.get_char(i);
    if i < 8 && c == '/' {
        '\\'
    } else {
        c
    }
}

fn matches2_at(s: &str, n: usize, i: usize, a: char, b: char) -> (r: bool)
    requires
        n == s@.len(),
    ensures
        r == matches2(s@, i as int, a, b),
{
    if i > n || n - i < 2 {
        return false;
    }
    norm_at(s, n, i) == a && norm_at(s, n, i + 1) == b
}

fn comp_end_at(s: &str, n: usize, i: usize, style: SepStyle) -> (e: usize)
    requires
        n == s@.len(),
        i <= n,
    ensures
        e == comp_end(s@, i as int, style),
        i <= e <= n,
{
    let mut j = i;
    while j < n && !is_sep_char(style, s.get_char(j))
        invariant
            n == s@.len(),
            i <= j <= n,
            comp_end(s@, j as int, style) == comp_end(s@, i as int, style),
        decreases n - j,
    {
        j = j + 1;
    }
    j
}

fn is_drive_letter_char(c: char) -> (r: bool)
    ensures
        r == is_drive_letter(c),
{
    ('a' <= c && c <= 'z') || ('A' <= c && c <= 'Z')
}

fn ascii_upper_char(c: char) -> (r: char)
    ensures
        r == ascii_upper(c),
{
    if 'a' <= c && c <= 'z' {
        (((c as u8) - 32) as u8) as char
    } else {
        c
    }
}

fn sub_string(s: &str, from: usize, to: usize) -> (r: String)
    requires
        from <= to <= s@.len(),
    ensures
        r@ == s@.subrange(from as int, to as int),
{
    String::from_str(s.substring_char(from, to))
}

/// The prefix of a Windows path and its length in characters, if it has one.
pub fn windows_prefix(s: &str) -> (r: Option<(Prefix, usize)>)
    ensures
        prefix_result_view(r) == parse_prefix(s@),
{
    let n = s.unicode_len();
    if matches2_at(s, n, 0, '\\', '\\') {
        if matches2_at(s, n, 2, '?', '\\') && s.get_char(0) != '/' && s.get_char(1) != '/'
            && s.get_char(2) != '/' && s.get_char(3) != '/' {
            if n >= 8 && norm_at(s, n, 4) == 'U' && norm_at(s, n, 5) == 'N' && norm_at(s, n, 6)
                == 'C' && norm_at(s, n, 7) == '\\' {
                let e1 = comp_end_at(s, n, 8, SepStyle::Backslash);
                let s2 = if e1 < n {
                    e1 + 1
                } else {
                    e1
                };
                let e2 = comp_end_at(s, n, s2, SepStyle::Backslash);
                let server = sub_string(s, 8, e1);
                let share = sub_string(s, s2, e2);
                let len = if e2 > s2 {
                    e2
                } else {
                    e1
                };
                Some((Prefix::VerbatimUNC(server, share), len))
            } else if n >= 6 && is_drive_letter_char(s.get_char(4)) && s.get_char(5) == ':' && (n
                == 6 || s.get_char(6) == '\\') {
                Some((Prefix::VerbatimDisk(ascii_upper_char(s.get_char(4))), 6))
            } else {
                let e = comp_end_at(s, n, 4, SepStyle::Backslash);
                Some((Prefix::Verbatim(sub_string(s, 4, e)), e))
            }
        } else if matches2_at(s, n, 2, '.', '\\') {
            let e = comp_end_at(s, n, 4, SepStyle::SlashOrBackslash);
            Some((Prefix::DeviceNS(sub_string(s, 4, e)), e))
        } else {
            let e1 = comp_end_at(s, n, 2, SepStyle::SlashOrBackslash);
            let s2 = if e1 < n {
                e1 + 1
            } else {
                e1
            };
            let e2 = comp_end_at(s, n, s2, SepStyle::SlashOrBackslash);
            if e1 > 2 && e2 > s2 {
                Some((Prefix::UNC(sub_string(s, 2, e1), sub_string(s, s2, e2)), e2))
            } else {
                None
            }
        }
    } else if n >= 2 && is_drive_letter_char(s.get_char(0)) && s.get_char(1) == ':' {
        Some((Prefix::Disk(ascii_upper_char(s.get_char(0))), 2))
    } else {
        None
    }
}

/// The prefix of a path on a platform.
pub fn path_prefix(s: &str, platform: Platform) -> (r: Option<(Prefix, usize)>)
    ensures
        prefix_result_view(r) == prefix_info(s@, platform),
{
    match platform {
        Platform::Unix => None,
        Platform::Windows => windows_prefix(s),
    }
}

} // verus!
