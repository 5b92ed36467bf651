use lsd::join::{join, parent};
use lsd::meta::utils::{
    relative_path_fails, same_path, verbatim_input_check, verbatim_path, VerbatimError,
};
use lsd::path::{components, is_absolute, Component};
use lsd::prefix::{windows_prefix, Prefix};
use lsd::{relative_path, Colors, Flags, Platform, SymLink, ThemeOption};

fn names(path: &str) -> Vec<String> {
    components(path, Platform::Windows)
        .into_iter()
        .map(|c| match c {
            Component::Prefix(_, t) => format!("<{}>", t),
            Component::RootDir => "\\".to_string(),
            Component::CurDir => ".".to_string(),
            Component::ParentDir => "..".to_string(),
            Component::Normal(s) => s,
        })
        .collect()
}

#[test]
fn windows_prefixes() {
    assert!(matches!(windows_prefix(r"C:\a"), Some((Prefix::Disk('C'), 2))));
    assert!(matches!(windows_prefix(r"c:a"), Some((Prefix::Disk('C'), 2))));
    assert!(matches!(windows_prefix(r"\\?\C:\a"), Some((Prefix::VerbatimDisk('C'), 6))));
    match windows_prefix(r"\\server\share\a") {
        Some((Prefix::UNC(server, share), 14)) => {
            assert_eq!("server", server);
            assert_eq!("share", share);
        }
        _ => panic!("expected a UNC prefix"),
    }
    match windows_prefix(r"\\?\UNC\server\share\a") {
        Some((Prefix::VerbatimUNC(server, share), 20)) => {
            assert_eq!("server", server);
            assert_eq!("share", share);
        }
        _ => panic!("expected a verbatim UNC prefix"),
    }
    match windows_prefix(r"\\.\COM1") {
        Some((Prefix::DeviceNS(d), 8)) => assert_eq!("COM1", d),
        _ => panic!("expected a device prefix"),
    }
    match windows_prefix(r"\\?\pictures\a") {
        Some((Prefix::Verbatim(p), 12)) => assert_eq!("pictures", p),
        _ => panic!("expected a verbatim prefix"),
    }
    assert!(windows_prefix(r"\\server").is_none());
    assert!(windows_prefix(r"\a").is_none());
    assert!(windows_prefix("a").is_none());
}

#[test]
fn windows_components() {
    assert_eq!(vec!["<C:>", "\\", "a", "b"], names(r"C:\a/b\"));
    assert_eq!(vec!["<C:>", "a"], names(r"C:a"));
    assert_eq!(vec!["<\\\\server\\share>", "\\", "a"], names(r"\\server\share\a"));
    assert_eq!(vec!["<\\\\?\\C:>", "\\", "a/b", ".", ".."], names(r"\\?\C:\a/b\.\.."));
    assert_eq!(vec![".", "a"], names(r".\a"));
    assert_eq!(vec!["\\", "a"], names(r"\a"));
}

#[test]
fn windows_relative_paths() {
    assert_eq!(r"..\b", relative_path(r"C:\a\b", r"C:\a\c", Platform::Windows));
    assert_eq!(r"..\b", relative_path(r"\\?\C:\a\b", r"\\?\C:\a\c", Platform::Windows));
    assert_eq!("b", relative_path(r"C:\a\b", r"c:/a", Platform::Windows));
    assert_eq!(".", relative_path(r"C:\a", r"c:/a/", Platform::Windows));
    assert_eq!(r"D:\x", relative_path(r"D:\x", r"C:\y", Platform::Windows));
    assert_eq!(r"..\..", relative_path(r"\\s\h\a", r"\\s\h\a\b\c", Platform::Windows));
    assert!(same_path(r"C:\a\b", r"c:/a/b/", Platform::Windows));
    assert!(!same_path(r"C:\a\b", r"C:\a\B", Platform::Windows));
}

#[test]
fn windows_join_and_parent() {
    assert_eq!(r"C:\a\b", join(r"C:\a", "b", Platform::Windows));
    assert_eq!("C:b", join("C:", "b", Platform::Windows));
    assert_eq!(r"C:\b", join(r"C:\a", r"\b", Platform::Windows));
    assert_eq!(r"D:\b", join(r"C:\a", r"D:\b", Platform::Windows));
    assert_eq!(r"\\?\C:\a\c", join(r"\\?\C:\a", r"b\..\c", Platform::Windows));
    assert_eq!(r"a\b", join("a", "b", Platform::Windows));
    assert_eq!(Some(r"C:\a".to_string()), parent(r"C:\a\b", Platform::Windows));
    assert_eq!(None, parent(r"C:\", Platform::Windows));
    assert_eq!(None, parent("C:", Platform::Windows));
    assert_eq!(Some("C:".to_string()), parent("C:a", Platform::Windows));
    assert!(is_absolute(r"C:\a", Platform::Windows));
    assert!(!is_absolute(r"\a", Platform::Windows));
    assert!(!is_absolute("C:a", Platform::Windows));
    assert!(is_absolute(r"\\server\share", Platform::Windows));
}

#[test]
fn windows_verbatim_forms() {
    assert_eq!(r"\\?\C:\a\b", verbatim_path(r"C:\a\b"));
    assert_eq!(r"\\?\C:\", verbatim_path(r"C:\"));
    assert_eq!(r"\\?\UNC\server\share\", verbatim_path(r"\\server\share"));
    assert_eq!(r"\\?\UNC\server\share\x", verbatim_path(r"\\server\share\x"));
    assert_eq!(r"\\?\COM1\", verbatim_path(r"\\.\COM1"));
    assert_eq!(r"\\?\C:\a", verbatim_path(r"\\?\C:\a"));
    assert_eq!(r"\\?\UNC\s\h\", verbatim_path(r"\\?\UNC\s\h"));
    assert_eq!(r"\\?\UNC\s\h\a", verbatim_path(r"\\?\UNC\s\h\a"));
}

#[test]
fn windows_symlink_prefix_and_target() {
    let link = SymLink::new(Some("t".to_string()), true);
    assert_eq!(Some(r"..\t".to_string()), link.symlink_string(&".".to_string(), Platform::Windows));
    assert_eq!(
        Some(r"..\..\t".to_string()),
        link.symlink_string(&"..".to_string(), Platform::Windows)
    );
    let shown = link.render(
        &Colors::new(ThemeOption::NoColor),
        &Flags::default(),
        &String::from(".."),
        Platform::Windows,
    );
    assert_eq!(r" ⇒ ..\..\t", shown.to_string());
    let link = SymLink::from_link(r"C:\dir\link", r"..\x", true, Platform::Windows);
    assert_eq!(Some(r"..\x".to_string()), link.symlink_string(&"link".to_string(), Platform::Windows));
    assert_eq!(
        Some(r"C:\dir\x".to_string()),
        SymLink::target_location(r"C:\dir\link", "x", Platform::Windows)
    );
    assert_eq!(
        Some(r"D:\x".to_string()),
        SymLink::target_location(r"C:\dir\link", r"D:\x", Platform::Windows)
    );
}

#[test]
fn windows_dot_after_drive() {
    assert_eq!(vec!["<C:>"], names("C:."));
    assert_eq!(vec!["<C:>", "a"], names(r"C:.\a"));
    assert_eq!(None, parent("C:.", Platform::Windows));
    assert!(same_path(r"C:.\a", "C:a", Platform::Windows));
    assert_eq!(".", relative_path(r"C:.\a", "C:a", Platform::Windows));
}

#[test]
fn windows_verbatim_input() {
    assert!(matches!(verbatim_input_check(""), Err(VerbatimError::EmptyPath)));
    assert!(verbatim_input_check("a").is_ok());
    assert!(verbatim_input_check(r"C:\").is_ok());
}

#[test]
fn windows_relative_path_without_answer() {
    assert!(relative_path_fails("", r"C:\a", Platform::Windows));
    assert!(relative_path_fails(r"C:\a", "", Platform::Windows));
    assert!(!relative_path_fails("", "", Platform::Windows));
    assert!(!relative_path_fails("", "a", Platform::Unix));
    assert!(!relative_path_fails(r"\\?\C:\a", r"\\?\C:\b", Platform::Windows));
}

#[test]
fn windows_verbatim_form_is_stable() {
    for path in [r"C:\a\b", r"C:\", r"\\server\share", r"\\server\share\x\y", r"\\?\UNC\s\h"] {
        let once = verbatim_path(path);
        assert_eq!(once, verbatim_path(&once));
    }
    assert_eq!(r"\\?\D:\x\y\z", verbatim_path(r"D:\x\y\z"));
    assert_eq!(r"\\?\UNC\srv\sh\x\y", verbatim_path(r"\\srv\sh\x\y"));
    assert_eq!(r"\\?\Volume{1}\a", verbatim_path(r"\\?\Volume{1}\a"));
}
