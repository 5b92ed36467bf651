use lsd::{Colors, Flags, Platform, SymLink, ThemeOption};

#[test]
fn test_symlink_render_default_valid_target_nocolor() {
    let link = SymLink::new(Some("/target".to_string()), true);
    assert_eq!(
        format!("{}", " ⇒ /target"),
        link.render(
            &Colors::new(ThemeOption::NoColor),
            &Flags::default(),
            &String::from(""),
            Platform::Unix,
        )
        .to_string()
    );
}

#[test]
fn test_symlink_render_default_invalid_target_nocolor() {
    let link = SymLink::new(Some("/target".to_string()), false);
    assert_eq!(
        format!("{}", " ⇒ /target"),
        link.render(
            &Colors::new(ThemeOption::NoColor),
            &Flags::default(),
            &String::from(""),
            Platform::Unix,
        )
        .to_string()
    );
}

#[test]
fn test_symlink_render_default_invalid_target_withcolor() {
    let link = SymLink::new(Some("/target".to_string()), false);
    assert_eq!(
        format!("{}", " ⇒ \u{1b}[38;5;124m/target\u{1b}[39m"),
        link.render(
            &Colors::new(ThemeOption::NoLscolors),
            &Flags::default(),
            &String::from(""),
            Platform::Unix,
        )
        .to_string()
    );
}

#[test]
fn render_valid_target_withcolor() {
    let link = SymLink::new(Some("/target".to_string()), true);
    assert_eq!(
        " ⇒ \u{1b}[38;5;44m/target\u{1b}[39m",
        link.render(
            &Colors::new(ThemeOption::NoLscolors),
            &Flags::default(),
            &String::from(""),
            Platform::Unix,
        )
        .to_string()
    );
}

#[test]
fn render_without_target_is_empty() {
    let link = SymLink::unreadable();
    let shown = link.render(
        &Colors::new(ThemeOption::NoLscolors),
        &Flags::default(),
        &String::from("file"),
        Platform::Unix,
    );
    assert_eq!("", shown.to_string());
}

#[test]
fn render_uses_the_arrow_of_the_flags() {
    let link = SymLink::new(Some("t".to_string()), true);
    let flags = Flags::new("->".to_string());
    let shown = link.render(&Colors::new(ThemeOption::NoColor), &flags, &String::from("x"), Platform::Unix);
    assert_eq!(" -> t", shown.to_string());
}

#[test]
fn render_prefixes_target_for_dot_entries() {
    let link = SymLink::new(Some("t".to_string()), true);
    let colors = Colors::new(ThemeOption::NoColor);
    assert_eq!(" ⇒ ../t", link.render(&colors, &Flags::default(), &String::from("."), Platform::Unix).to_string());
    assert_eq!(
        " ⇒ ../../t",
        link.render(&colors, &Flags::default(), &String::from(".."), Platform::Unix).to_string()
    );
}

#[test]
fn symlink_string_prefixes() {
    let link = SymLink::new(Some("target".to_string()), false);
    assert_eq!(Some("../target".to_string()), link.symlink_string(&".".to_string(), Platform::Unix));
    assert_eq!(Some("../../target".to_string()), link.symlink_string(&"..".to_string(), Platform::Unix));
    assert_eq!(Some("target".to_string()), link.symlink_string(&"name".to_string(), Platform::Unix));
    assert_eq!(Some("target".to_string()), link.symlink_string(&"...".to_string(), Platform::Unix));
    assert_eq!(None, SymLink::unreadable().symlink_string(&".".to_string(), Platform::Unix));
}

#[test]
fn default_arrow() {
    assert_eq!("⇒", Flags::default().symlink_arrow);
}

#[test]
fn from_link_relative_target_through_parent() {
    let link = SymLink::from_link("dir/link", "../x", true, Platform::Unix);
    assert_eq!(Some("../x".to_string()), link.symlink_string(&"link".to_string(), Platform::Unix));
    let link = SymLink::from_link("dir/link", "sub/f", false, Platform::Unix);
    assert_eq!(Some("sub/f".to_string()), link.symlink_string(&"link".to_string(), Platform::Unix));
    let link = SymLink::from_link("link", "t", true, Platform::Unix);
    assert_eq!(Some("t".to_string()), link.symlink_string(&"link".to_string(), Platform::Unix));
    let link = SymLink::from_link("/a/link", "./b//c/", true, Platform::Unix);
    assert_eq!(Some("b/c".to_string()), link.symlink_string(&"link".to_string(), Platform::Unix));
}

#[test]
fn from_link_absolute_target_is_kept() {
    let link = SymLink::from_link("dir/link", "/etc//hosts", true, Platform::Unix);
    assert_eq!(Some("/etc//hosts".to_string()), link.symlink_string(&"link".to_string(), Platform::Unix));
}

#[test]
fn target_location_cases() {
    assert_eq!(Some("dir/x".to_string()), SymLink::target_location("dir/link", "x", Platform::Unix));
    assert_eq!(Some("/x".to_string()), SymLink::target_location("/link", "x", Platform::Unix));
    assert_eq!(Some("x".to_string()), SymLink::target_location("link", "x", Platform::Unix));
    assert_eq!(Some("/abs".to_string()), SymLink::target_location("/", "/abs", Platform::Unix));
    assert_eq!(None, SymLink::target_location("/", "x", Platform::Unix));
    assert_eq!(None, SymLink::target_location("", "x", Platform::Unix));
}
