use std::sync::Arc;
use userdirs::cache::{reload, user_dirs, Cache};
use userdirs::{resolve, Environment, Platform, UserDir, UserDirs, COUNT};

fn env() -> Environment {
    Environment {
        platform: Platform::Xdg,
        home: Some(b"/home/alice".to_vec()),
        data_home: None,
        user_dirs_file: Some(b"XDG_DOWNLOAD_DIR=\"$HOME/Downloads\"\n".to_vec()),
        known_folders: Vec::new(),
    }
}

#[test]
fn every_variant_has_a_unique_index_in_range() {
    let mut seen = [false; COUNT];
    for which in UserDir::all() {
        let index = which.index();
        assert!(index < COUNT, "{which:?} has out-of-range index {index}");
        assert!(!seen[index], "{which:?} reuses index {index}");
        seen[index] = true;
    }
    assert!(seen.iter().all(|slot| *slot), "UserDir::all does not cover every index in 0..{COUNT}");
}

#[test]
fn all_lists_each_directory_at_its_index() {
    let all = UserDir::all();
    assert_eq!(all.len(), COUNT);
    for (i, which) in all.iter().enumerate() {
        assert_eq!(which.index(), i);
    }
}

#[test]
fn snapshot_is_reused_until_reloaded() {
    let mut cache = Cache::new();
    reload(&mut cache);

    let Some(first) = user_dirs(&mut cache, env) else {
        panic!("home is known");
    };
    let second = user_dirs(&mut cache, env).expect("still resolvable");

    // Same allocation, so the second call did no work.
    assert!(Arc::ptr_eq(&first, &second), "second lookup should reuse the snapshot");

    reload(&mut cache);
    let third = user_dirs(&mut cache, env).expect("still resolvable");
    assert!(!Arc::ptr_eq(&first, &third), "reload should force a fresh resolve");

    // Invalidation must not change the answer, only recompute it.
    for which in UserDir::all() {
        assert_eq!(first.get(which), third.get(which), "{which:?}");
    }
}

#[test]
fn cached_values_match_the_uncached_api() {
    let mut cache = Cache::new();
    reload(&mut cache);
    let Some(cached) = user_dirs(&mut cache, env) else {
        panic!("home is known");
    };
    let direct = UserDirs::new(&env()).expect("resolvable");
    for which in UserDir::all() {
        assert_eq!(cached.get(which), direct.get(which), "{which:?}");
    }
}

#[test]
fn cache_remembers_that_nothing_resolved() {
    let mut cache = Cache::new();
    let unsupported = || Environment {
        platform: Platform::Unsupported,
        home: None,
        data_home: None,
        user_dirs_file: None,
        known_folders: Vec::new(),
    };
    assert!(user_dirs(&mut cache, unsupported).is_none());
    // The remembered `None` is answered without consulting the environment.
    let r = user_dirs(&mut cache, || -> Environment { panic!("must not resolve again") });
    assert!(r.is_none());
}

#[test]
fn accessors_read_their_own_entry() {
    let dirs = UserDirs::new(&env()).expect("home is known");
    assert_eq!(dirs.download_dir(), Some(b"/home/alice/Downloads".as_slice()));
    assert_eq!(dirs.font_dir(), Some(b"/home/alice/.local/share/fonts".as_slice()));
    assert_eq!(dirs.audio_dir(), None);
    assert_eq!(dirs.desktop_dir(), None);
    assert_eq!(dirs.document_dir(), None);
    assert_eq!(dirs.picture_dir(), None);
    assert_eq!(dirs.project_dir(), None);
    assert_eq!(dirs.public_dir(), None);
    assert_eq!(dirs.template_dir(), None);
    assert_eq!(dirs.video_dir(), None);
}

#[test]
fn home_filters_empty_values() {
    assert_eq!(userdirs::home(&Some(b"/h".to_vec())), Some(b"/h".as_slice()));
    assert_eq!(userdirs::home(&Some(Vec::new())), None);
    assert_eq!(userdirs::home(&None), None);
}

#[test]
fn resolve_dispatches_on_the_platform() {
    let mut e = env();
    assert_eq!(resolve(&e, UserDir::Download), Some(b"/home/alice/Downloads".to_vec()));
    e.platform = Platform::Apple;
    assert_eq!(resolve(&e, UserDir::Download), Some(b"/home/alice/Downloads".to_vec()));
    assert_eq!(resolve(&e, UserDir::Font), Some(b"/home/alice/Library/Fonts".to_vec()));
    e.platform = Platform::Unsupported;
    assert_eq!(resolve(&e, UserDir::Download), None);
}
