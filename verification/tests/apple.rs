use userdirs::apple::{resolve, resolve_all, suffix};
use userdirs::{Environment, Platform, UserDir};

fn env() -> Environment {
    Environment {
        platform: Platform::Apple,
        home: Some(b"/Users/alice".to_vec()),
        data_home: None,
        user_dirs_file: None,
        known_folders: Vec::new(),
    }
}

#[test]
fn template_dir_is_absent() {
    assert_eq!(suffix(UserDir::Template), None);
    assert_eq!(resolve(&env(), UserDir::Template), None);
}

#[test]
fn video_dir_is_movies_not_videos() {
    assert_eq!(suffix(UserDir::Video), Some("Movies"));
}

#[test]
fn fonts_live_under_library() {
    assert_eq!(suffix(UserDir::Font), Some("Library/Fonts"));
}

#[test]
fn apple_resolve_all_agrees_with_resolve() {
    let all = resolve_all(&env()).expect("home directory should be resolvable in tests");
    for which in UserDir::all() {
        assert_eq!(all.get(which).map(|p| p.to_vec()), resolve(&env(), which), "{which:?}");
    }
}

#[test]
fn paths_are_absolute_and_under_home() {
    let home = b"/Users/alice";
    for which in UserDir::all() {
        if let Some(path) = resolve(&env(), which) {
            assert!(path.starts_with(b"/"), "{which:?} -> {path:?}");
            assert!(path.starts_with(home), "{which:?} -> {path:?}");
            assert_eq!(path[home.len()], b'/', "{which:?} -> {path:?}");
        }
    }
}

#[test]
fn downloads_join_the_home_directory() {
    assert_eq!(resolve(&env(), UserDir::Download), Some(b"/Users/alice/Downloads".to_vec()));
    let mut e = env();
    e.home = Some(b"/Users/alice/".to_vec());
    assert_eq!(resolve(&e, UserDir::Audio), Some(b"/Users/alice/Music".to_vec()));
}

#[test]
fn no_home_means_nothing() {
    let mut e = env();
    e.home = None;
    assert!(resolve_all(&e).is_none());
    assert_eq!(resolve(&e, UserDir::Download), None);
}
