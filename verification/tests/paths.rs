use lsd::color::{ColoredString, Colors, Elem, Style, ThemeOption};
use lsd::join::{join, parent};
use lsd::path::{components, is_absolute, Component};
use lsd::Platform;
use lsd::relative_path;

fn names(path: &str) -> Vec<String> {
    components(path, Platform::Unix)
        .into_iter()
        .map(|c| match c {
            Component::Prefix(_, t) => t,
            Component::RootDir => "/".to_string(),
            Component::CurDir => ".".to_string(),
            Component::ParentDir => "..".to_string(),
            Component::Normal(s) => s,
        })
        .collect()
}

#[test]
fn components_of_paths() {
    assert_eq!(vec!["/", "a", "b"], names("/a//b/"));
    assert_eq!(vec![".", "a", "..", "b"], names("./a/./../b"));
    assert_eq!(vec!["a"], names("a/."));
    assert_eq!(vec!["."], names("."));
    assert_eq!(vec![".."], names(".."));
    assert_eq!(vec![".a"], names(".a"));
    assert_eq!(Vec::<String>::new(), names(""));
    assert_eq!(vec!["/"], names("/./"));
}

#[test]
fn relative_path_same_path_is_dot() {
    assert_eq!(".", relative_path("/a/b", "/a/b", Platform::Unix));
    assert_eq!(".", relative_path("a/b/", "a//b", Platform::Unix));
    assert_eq!(".", relative_path("", "", Platform::Unix));
}

#[test]
fn relative_path_descendant_and_ancestor() {
    assert_eq!("b", relative_path("/a/b", "/a", Platform::Unix));
    assert_eq!("b/c", relative_path("/a/b/c", "/a", Platform::Unix));
    assert_eq!("..", relative_path("/a", "/a/b", Platform::Unix));
    assert_eq!("../..", relative_path("/a", "/a/b/c", Platform::Unix));
}

#[test]
fn relative_path_siblings() {
    assert_eq!("../../x/y", relative_path("/x/y", "/a/b", Platform::Unix));
    assert_eq!("../c", relative_path("a/c", "a/b", Platform::Unix));
    assert_eq!("x", relative_path("x", "", Platform::Unix));
}

#[test]
fn relative_path_mixed_roots() {
    assert_eq!("/a", relative_path("/a", "b", Platform::Unix));
    assert_eq!(".././a", relative_path("./a", "b", Platform::Unix));
}

#[test]
fn relative_path_walks_back_to_path() {
    // base joined with the relative path names the path again
    let base = "/usr/share/doc";
    let path = "/usr/lib/x";
    let rel = relative_path(path, base, Platform::Unix);
    assert_eq!("../../lib/x", rel);
    assert_eq!("/usr/share/doc/../../lib/x", join(base, &rel, Platform::Unix));
}

#[test]
fn parent_of_paths() {
    assert_eq!(None, parent("/", Platform::Unix));
    assert_eq!(None, parent("", Platform::Unix));
    assert_eq!(Some("".to_string()), parent("a", Platform::Unix));
    assert_eq!(Some("/".to_string()), parent("/a", Platform::Unix));
    assert_eq!(Some("/a".to_string()), parent("/a/b/", Platform::Unix));
    assert_eq!(Some(".".to_string()), parent("./a", Platform::Unix));
}

#[test]
fn join_paths() {
    assert_eq!("a/b", join("a", "b", Platform::Unix));
    assert_eq!("a/b", join("a/", "b", Platform::Unix));
    assert_eq!("/b", join("a", "/b", Platform::Unix));
    assert_eq!("b", join("", "b", Platform::Unix));
    assert!(is_absolute("/x", Platform::Unix));
    assert!(!is_absolute("x/", Platform::Unix));
}

#[test]
fn styled_strings() {
    let s = ColoredString::new(Style { foreground: Some(5) }, "x".to_string());
    assert_eq!("\u{1b}[38;5;5mx\u{1b}[39m", s.to_string());
    let s = ColoredString::new(Style { foreground: Some(44) }, "y".to_string());
    assert_eq!("\u{1b}[38;5;44my\u{1b}[39m", s.to_string());
    let s = ColoredString::new(Style { foreground: Some(255) }, "".to_string());
    assert_eq!("\u{1b}[38;5;255m\u{1b}[39m", s.to_string());
    let s = ColoredString::new(Colors::default_style(), "plain".to_string());
    assert_eq!("plain", s.to_string());
}

#[test]
fn colors_of_elements() {
    let plain = Colors::new(ThemeOption::NoColor);
    assert_eq!(None, plain.style(&Elem::SymLink).foreground);
    assert_eq!("t", plain.colorize("t".to_string(), &Elem::MissingSymLinkTarget).to_string());
    let themed = Colors::new(ThemeOption::NoLscolors);
    assert_eq!(Some(44), themed.style(&Elem::SymLink).foreground);
    assert_eq!(Some(124), themed.style(&Elem::MissingSymLinkTarget).foreground);
}
