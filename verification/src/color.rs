//! Colors of the elements that a listing shows, and strings carrying a style.
use vstd::prelude::*;
use crate::join::push_char;

verus! {

/// Which colors the listing uses.
pub enum ThemeOption {
    /// No colors at all.
    NoColor,
    /// The built-in theme, without colors taken from the environment.
    NoLscolors,
}

/// An element of the listing that has a color of its own.
#[derive(Clone, Copy, PartialEq, Eq, Structural)]
pub enum Elem {
    /// A symbolic link whose target exists.
    SymLink,
    /// A symbolic link whose target is missing.
    MissingSymLinkTarget,
}

/// A text style: an optional foreground color from the 256-color palette.
#[derive(Clone, Copy, PartialEq, Eq, Structural)]
pub struct Style {
    pub foreground: Option<u8>,
}

/// The palette of the listing.
pub struct Colors {
    colored: bool,
}

/// The built-in theme's color of an element.
pub open spec fn theme_color(elem: Elem) -> u8 {
    match elem {
        Elem::SymLink => 44,
        Elem::MissingSymLinkTarget => 124,
    }
}

/// The style without any color.
pub open spec fn plain_style() -> Style {
    Style { foreground: None }
}

/// The decimal digit `d` as a character.
pub open spec fn digit_char(d: nat) -> char {
    ((d + 48) as u8) as char
}

/// The decimal notation of `n`.
pub open spec fn decimal(n: nat) -> Seq<char>
    decreases n,
{
    if n < 10 {
        seq![digit_char(n)]
    } else {
        decimal(n / 10).push(digit_char(n % 10))
    }
}

/// The escape sequence that selects foreground color `n`.
pub open spec fn set_foreground(n: u8) -> Seq<char> {
    seq!['\u{1b}', '[', '3', '8', ';', '5', ';'] + decimal(n as nat) + seq!['m']
}

/// The escape sequence that resets the foreground color.
pub open spec fn reset_foreground() -> Seq<char> {
    seq!['\u{1b}', '[', '3', '9', 'm']
}

/// The text of `content` shown in `style`: unchanged without a color, else wrapped in
/// the escape sequences that set and reset the foreground color.
pub open spec fn styled_text(style: Style, content: Seq<char>) -> Seq<char> {
    match style.foreground {
        None => content,
        Some(n) => set_foreground(n) + content + reset_foreground(),
    }
}

impl Colors {
    /// Whether the palette colors anything.
    pub closed spec fn is_colored(&self) -> bool {
        self.colored
    }

    /// The style of an element under this palette.
    pub open spec fn spec_style(&self, elem: Elem) -> Style {
        if self.is_colored() {
            Style { foreground: Some(theme_color(elem)) }
        } else {
            plain_style()
        }
    }

    pub fn new(theme: ThemeOption) -> (r: Colors)
        ensures
            r.is_colored() == (theme is NoLscolors),
    {
        match theme {
            ThemeOption::NoColor => Colors { colored: false },
            ThemeOption::NoLscolors => Colors { colored: true },
        }
    }

    /// The style of text that is not an element of its own.
    pub fn default_style() -> (r: Style)
        ensures
            r == plain_style(),
    {
        Style { foreground: None }
    }

    /// The style of an element.
    pub fn style(&self, elem: &Elem) -> (r: Style)
        ensures
            r == self.spec_style(*elem),
    {
        if self.colored {
            let n: u8 = match elem {
                Elem::SymLink => 44,
                Elem::MissingSymLinkTarget => 124,
            };
            Style { foreground: Some(n) }
        } else {
            Style { foreground: None }
        }
    }

    /// `input` in the style of `elem`.
    pub fn colorize(&self, input: String, elem: &Elem) -> (r: ColoredString)
        ensures
            r.style == self.spec_style(*elem),
            r.content@ == input@,
    {
        ColoredString { style: self.style(elem), content: input }
    }
}

/// A string together with the style it is shown in.
pub struct ColoredString {
    pub style: Style,
    pub content: String,
}

/// Appends the decimal notation of `n`.
fn push_decimal(buf: &mut String, n: u8)
    ensures
        final(buf)@ == old(buf)@ + decimal(n as nat),
{
    let ghost start = buf@;
    if n >= 100 {
        push_char(buf, ((n / 100) + 48) as char);
    }
    if n >= 10 {
        push_char(buf, ((n / 10 % 10) + 48) as char);
    }
    push_char(buf, ((n % 10) + 48) as char);
    proof {
        let m = n as nat;
        if m >= 100 {
            assert(decimal(m / 100) == seq![digit_char(m / 100)]);
            assert(decimal(m / 10) == decimal(m / 100).push(digit_char((m / 10) % 10)));
            assert((m / 10) / 10 == m / 100);
            assert(decimal(m) == decimal(m / 10).push(digit_char(m % 10)));
        } else if m >= 10 {
            assert(decimal(m / 10) == seq![digit_char(m / 10)]);
            assert(decimal(m) == decimal(m / 10).push(digit_char(m % 10)));
        }
        assert(buf@ =~= start + decimal(m));
    }
}

/// Appends a whole string.
fn push_seq(buf: &mut String, s: &String)
    ensures
        final(buf)@ == old(buf)@ + s@,
{
    buf.append(s.as_str());
}

impl ColoredString {
    pub fn new(style: Style, content: String) -> (r: ColoredString)
        ensures
            r.style == style,
            r.content@ == content@,
    {
        ColoredString { style, content }
    }

    /// The text as a terminal shows it, with the escape sequences of its style.
    pub fn to_string(&self) -> (r: String)
        ensures
            r@ == styled_text(self.style, self.content@),
    {
        match self.style.foreground {
            None => self.content.clone(),
            Some(n) => {
                let mut r = String::new();
                push_char(&mut r, '\u{1b}');
                push_char(&mut r, '[');
                push_char(&mut r, '3');
                push_char(&mut r, '8');
                push_char(&mut r, ';');
                push_char(&mut r, '5');
                push_char(&mut r, ';');
                push_decimal(&mut r, n);
                push_char(&mut r, 'm');
                push_seq(&mut r, &self.content);
                push_char(&mut r, '\u{1b}');
                push_char(&mut r, '[');
                push_char(&mut r, '3');
                push_char(&mut r, '9');
                push_char(&mut r, 'm');
                assert(r@ =~= styled_text(self.style, self.content@));
                r
            },
        }
    }
}

/// Without colors, every element is shown as its plain text.
pub proof fn lemma_no_color_is_plain(colors: Colors, elem: Elem, content: Seq<char>)
    requires
        !colors.is_colored(),
    ensures
        styled_text(colors.spec_style(elem), content) == content,
{
}

} // verus!
