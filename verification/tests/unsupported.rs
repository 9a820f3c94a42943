use userdirs::unsupported::{resolve, resolve_all};
use userdirs::{Environment, Platform, UserDir};

#[test]
fn every_lookup_is_absent() {
    let env = Environment {
        platform: Platform::Unsupported,
        home: Some(b"/home/alice".to_vec()),
        data_home: None,
        user_dirs_file: None,
        known_folders: Vec::new(),
    };
    for which in UserDir::all() {
        assert_eq!(resolve(&env, which), None, "{which:?}");
        assert_eq!(userdirs::resolve(&env, which), None, "{which:?}");
    }
    assert!(resolve_all(&env).is_none());
    assert!(userdirs::UserDirs::new(&env).is_none());
}
