use userdirs::windows::{folder, known_folder, resolve, resolve_all, KnownFolder};
use userdirs::{Environment, Platform, UserDir};

fn wide(s: &str) -> Option<Vec<u8>> {
    Some(s.as_bytes().to_vec())
}

fn env() -> Environment {
    Environment {
        platform: Platform::Windows,
        home: None,
        data_home: None,
        user_dirs_file: None,
        known_folders: vec![
            wide(r"C:\Users\alice\Music"),
            wide(r"C:\Users\alice\Desktop"),
            wide(r"C:\Users\alice\Documents"),
            wide(r"C:\Users\alice\Downloads"),
            wide(r"C:\Users\alice\Pictures"),
            wide(r"C:\Users\Public"),
            wide(r"C:\Users\alice\AppData\Roaming\Microsoft\Windows\Templates"),
            wide(r"C:\Users\alice\Videos"),
            wide(r"C:\Users\alice\AppData\Local"),
        ],
    }
}

fn is_absolute(p: &[u8]) -> bool {
    p.len() >= 3 && p[0].is_ascii_alphabetic() && p[1] == b':' && p[2] == b'\\'
}

#[test]
fn project_dir_is_absent() {
    assert!(folder(UserDir::Project).is_none());
    assert_eq!(resolve(&env(), UserDir::Project), None);
}

#[test]
fn font_dir_is_the_per_user_store_under_local_appdata() {
    let font = resolve(&env(), UserDir::Font).expect("LocalAppData should resolve");
    // %LOCALAPPDATA%\Microsoft\Windows\Fonts.
    assert!(font.ends_with(br"Microsoft\Windows\Fonts"), "{font:?}");

    let local_appdata = known_folder(&env(), KnownFolder::LocalAppData).expect("LocalAppData should resolve");
    assert!(font.starts_with(&local_appdata), "{font:?}");
    assert_eq!(font, br"C:\Users\alice\AppData\Local\Microsoft\Windows\Fonts".to_vec());

    assert!(is_absolute(&font), "{font:?}");
}

#[test]
fn known_folders_resolve_to_absolute_paths() {
    for which in UserDir::all() {
        if let Some(path) = resolve(&env(), which) {
            assert!(is_absolute(&path), "{which:?} -> {path:?}");
        }
    }
}

#[test]
fn download_dir_resolves() {
    assert_eq!(resolve(&env(), UserDir::Download), wide(r"C:\Users\alice\Downloads"));
}

#[test]
fn windows_resolve_all_agrees_with_resolve() {
    let all = resolve_all(&env()).expect("shell should resolve at least one known folder");
    for which in UserDir::all() {
        assert_eq!(all.get(which).map(|p| p.to_vec()), resolve(&env(), which), "{which:?}");
    }
}

#[test]
fn failed_or_empty_lookups_are_absent() {
    let mut e = env();
    e.known_folders[KnownFolder::Downloads.index()] = None;
    e.known_folders[KnownFolder::Music.index()] = Some(Vec::new());
    assert_eq!(resolve(&e, UserDir::Download), None);
    assert_eq!(resolve(&e, UserDir::Audio), None);
    assert!(resolve(&e, UserDir::Desktop).is_some());
}

#[test]
fn no_known_folder_at_all_means_none() {
    let mut e = env();
    e.known_folders = Vec::new();
    assert!(resolve_all(&e).is_none());
    for which in UserDir::all() {
        assert_eq!(resolve(&e, which), None);
    }
}

#[test]
fn no_separator_is_doubled() {
    let mut e = env();
    e.known_folders[KnownFolder::LocalAppData.index()] = wide(r"D:\Local\");
    assert_eq!(resolve(&e, UserDir::Font), Some(br"D:\Local\Microsoft\Windows\Fonts".to_vec()));
    e.known_folders[KnownFolder::LocalAppData.index()] = wide("D:");
    assert_eq!(resolve(&e, UserDir::Font), Some(br"D:Microsoft\Windows\Fonts".to_vec()));
}
