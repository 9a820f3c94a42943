use userdirs::xdg::{base_dir, font_dir, parse, read_user_dirs_file, resolve, user_dirs_file};
use userdirs::{Environment, Platform, UserDir};

fn home() -> Vec<u8> {
    b"/home/alice".to_vec()
}

fn get(contents: &str, which: UserDir) -> Option<Vec<u8>> {
    get_bytes(contents.as_bytes(), which)
}

fn get_bytes(contents: &[u8], which: UserDir) -> Option<Vec<u8>> {
    parse(contents, &home())[which.index()].clone()
}

fn path(s: &str) -> Option<Vec<u8>> {
    Some(s.as_bytes().to_vec())
}

#[test]
fn parses_a_typical_file() {
    let contents = "# This file is written by xdg-user-dirs-update\n\
                    XDG_DESKTOP_DIR=\"$HOME/Desktop\"\n\
                    XDG_DOWNLOAD_DIR=\"$HOME/Downloads\"\n\
                    XDG_MUSIC_DIR=\"$HOME/Music\"\n\
                    XDG_PUBLICSHARE_DIR=\"$HOME/Public\"\n";
    assert_eq!(get(contents, UserDir::Download), path("/home/alice/Downloads"));
    assert_eq!(get(contents, UserDir::Audio), path("/home/alice/Music"));
    assert_eq!(get(contents, UserDir::Public), path("/home/alice/Public"));
    // Absent key stays absent.
    assert_eq!(get(contents, UserDir::Video), None);
}

#[test]
fn accepts_absolute_paths_outside_home() {
    let contents = "XDG_DOWNLOAD_DIR=\"/mnt/bulk/dl\"\n";
    assert_eq!(get(contents, UserDir::Download), path("/mnt/bulk/dl"));
}

#[test]
fn home_valued_entry_means_disabled() {
    // xdg-user-dirs writes this to mean "no such directory".
    assert_eq!(get("XDG_DOWNLOAD_DIR=\"$HOME\"\n", UserDir::Download), None);
    assert_eq!(get("XDG_DOWNLOAD_DIR=\"$HOME/\"\n", UserDir::Download), None);
    assert_eq!(get("XDG_DOWNLOAD_DIR=\"/home/alice\"\n", UserDir::Download), None);
}

#[test]
fn rejects_relative_paths() {
    assert_eq!(get("XDG_DOWNLOAD_DIR=\"Downloads\"\n", UserDir::Download), None);
}

#[test]
fn ignores_comments_junk_and_unknown_keys() {
    let contents = "# XDG_DOWNLOAD_DIR=\"$HOME/Commented\"\n\
                    \n\
                    not a key-value line\n\
                    XDG_UNKNOWN_DIR=\"$HOME/Nope\"\n\
                    SOMETHING_ELSE=\"$HOME/Nope\"\n\
                    XDG_DOWNLOAD_DIR=\"$HOME/Downloads\"\n";
    assert_eq!(get(contents, UserDir::Download), path("/home/alice/Downloads"));
}

#[test]
fn last_entry_wins() {
    let contents = "XDG_DOWNLOAD_DIR=\"$HOME/First\"\nXDG_DOWNLOAD_DIR=\"$HOME/Second\"\n";
    assert_eq!(get(contents, UserDir::Download), path("/home/alice/Second"));
}

#[test]
fn tolerates_stray_whitespace_around_key_and_value() {
    let contents = "  XDG_DOWNLOAD_DIR = \"$HOME/Downloads\"  \n";
    assert_eq!(get(contents, UserDir::Download), path("/home/alice/Downloads"));
}

#[test]
fn non_utf8_paths_survive_and_do_not_poison_the_file() {
    // 0xFF is not valid UTF-8, but it is a perfectly legal byte in a Unix path.
    let mut contents = Vec::new();
    contents.extend_from_slice(b"XDG_DOWNLOAD_DIR=\"$HOME/D\xFFwn\"\n");
    contents.extend_from_slice(b"XDG_MUSIC_DIR=\"$HOME/Music\"\n");

    let download = get_bytes(&contents, UserDir::Download).expect("download dir");
    assert_eq!(download.as_slice(), b"/home/alice/D\xFFwn".as_slice());

    // The neighbouring well-formed entry is unaffected.
    assert_eq!(get_bytes(&contents, UserDir::Audio), path("/home/alice/Music"));
}

#[test]
fn trailing_content_after_the_closing_quote_is_ignored() {
    assert_eq!(
        get("XDG_DOWNLOAD_DIR=\"$HOME/Downloads\" # my note\n", UserDir::Download),
        path("/home/alice/Downloads")
    );
}

#[test]
fn value_ends_at_the_first_unescaped_quote() {
    assert_eq!(
        get("XDG_DOWNLOAD_DIR=\"$HOME/Downloads\" # \"note\"\n", UserDir::Download),
        path("/home/alice/Downloads")
    );
}

#[test]
fn backslash_escapes_are_resolved() {
    assert_eq!(
        get("XDG_DOWNLOAD_DIR=\"$HOME/My\\\"Dir\"\n", UserDir::Download),
        path("/home/alice/My\"Dir")
    );
    assert_eq!(
        get("XDG_DOWNLOAD_DIR=\"$HOME/a\\ b\"\n", UserDir::Download),
        path("/home/alice/a b")
    );
}

#[test]
fn escaped_home_is_not_expanded() {
    assert_eq!(get("XDG_DOWNLOAD_DIR=\"\\$HOME/x\"\n", UserDir::Download), None);
}

#[test]
fn unquoted_values_are_rejected() {
    assert_eq!(get("XDG_DOWNLOAD_DIR=$HOME/Downloads\n", UserDir::Download), None);
}

#[test]
fn projects_dir_is_parsed() {
    assert_eq!(
        get("XDG_PROJECTS_DIR=\"$HOME/Projects\"\n", UserDir::Project),
        path("/home/alice/Projects")
    );
}

#[test]
fn unterminated_quote_is_rejected() {
    assert_eq!(get("XDG_DOWNLOAD_DIR=\"$HOME/Downloads\n", UserDir::Download), None);
}

#[test]
fn handles_crlf_line_endings() {
    let contents = "XDG_DOWNLOAD_DIR=\"$HOME/Downloads\"\r\nXDG_MUSIC_DIR=\"$HOME/Music\"\r\n";
    assert_eq!(get(contents, UserDir::Download), path("/home/alice/Downloads"));
    assert_eq!(get(contents, UserDir::Audio), path("/home/alice/Music"));
}

#[test]
fn value_may_contain_an_equals_sign() {
    assert_eq!(get("XDG_DOWNLOAD_DIR=\"$HOME/a=b\"\n", UserDir::Download), path("/home/alice/a=b"));
}

#[test]
fn home_prefix_must_be_a_path_component() {
    assert_eq!(get("XDG_DOWNLOAD_DIR=\"$HOMEwork\"\n", UserDir::Download), None);
}

#[test]
fn base_dir_ignores_relative_and_empty_values() {
    let h = home();
    // An absolute value wins.
    assert_eq!(base_dir(Some(b"/xdg/config"), &h, b".config"), b"/xdg/config".to_vec());
    // A relative value is treated as invalid.
    assert_eq!(base_dir(Some(b"relative/config"), &h, b".config"), b"/home/alice/.config".to_vec());
    // As is an empty one.
    assert_eq!(base_dir(Some(b""), &h, b".config"), b"/home/alice/.config".to_vec());
    // Unset falls back too.
    assert_eq!(base_dir(None, &h, b".local/share"), b"/home/alice/.local/share".to_vec());
}

#[test]
fn reads_a_real_file_from_disk() {
    let dirs = read_user_dirs_file(Some(b"XDG_DOWNLOAD_DIR=\"$HOME/Downloads\"\n"), &home());
    assert_eq!(dirs[UserDir::Download.index()], path("/home/alice/Downloads"));
}

#[test]
fn missing_file_yields_no_directories_rather_than_failing() {
    let dirs = read_user_dirs_file(None, &home());
    assert_eq!(dirs.len(), userdirs::COUNT);
    assert!(dirs.iter().all(Option::is_none));
}

#[test]
fn parser_never_panics_on_arbitrary_bytes() {
    let cases: [&[u8]; 14] = [
        b"",
        b"=",
        b"\n\n\n",
        b"XDG_",
        b"XDG_DOWNLOAD_DIR",
        b"XDG_DOWNLOAD_DIR=",
        b"XDG_DOWNLOAD_DIR=\"",
        b"XDG_DOWNLOAD_DIR=\"\\",
        b"XDG_DOWNLOAD_DIR=\"$HOME/",
        b"XDG_DOWNLOAD_DIR=\"$HOME",
        b"=XDG_DOWNLOAD_DIR",
        b"\xFF\xFE=\xFF",
        b"XDG_\xFF_DIR=\"/x\"",
        b"#XDG_DOWNLOAD_DIR=\"/x\"",
    ];
    for case in cases {
        let dirs = parse(case, &home());
        assert_eq!(dirs.len(), userdirs::COUNT);
    }
}

#[test]
fn font_dir_defaults_under_data_home() {
    let dir = font_dir(None, &home());
    assert_eq!(dir, b"/home/alice/.local/share/fonts".to_vec());
    assert!(dir.ends_with(b"fonts"));
}

#[test]
fn font_dir_follows_an_absolute_data_home() {
    assert_eq!(font_dir(Some(b"/data"), &home()), b"/data/fonts".to_vec());
    assert_eq!(font_dir(Some(b"data"), &home()), b"/home/alice/.local/share/fonts".to_vec());
}

#[test]
fn user_dirs_file_is_under_config_home() {
    assert_eq!(user_dirs_file(None, &home()), b"/home/alice/.config/user-dirs.dirs".to_vec());
    assert_eq!(user_dirs_file(Some(b"/cfg/"), &home()), b"/cfg/user-dirs.dirs".to_vec());
}

#[test]
fn later_file_overrides_earlier_file_entry_by_entry() {
    let mut joined = b"XDG_DOWNLOAD_DIR=\"$HOME/A\"\nXDG_MUSIC_DIR=\"$HOME/M\"".to_vec();
    joined.extend_from_slice(b"\nXDG_DOWNLOAD_DIR=\"$HOME/B\"\nbroken \xc3 line");
    assert_eq!(get_bytes(&joined, UserDir::Download), path("/home/alice/B"));
    assert_eq!(get_bytes(&joined, UserDir::Audio), path("/home/alice/M"));
}

#[test]
fn home_written_with_extra_separators_is_still_disabled() {
    assert_eq!(get("XDG_DOWNLOAD_DIR=\"/home//alice/./\"\n", UserDir::Download), None);
    assert_eq!(get("XDG_DOWNLOAD_DIR=\"$HOME/.\"\n", UserDir::Download), None);
}

#[test]
fn value_after_home_is_appended_after_one_slash() {
    // As `xdg_user_dir_lookup` resolves it: home, `/`, then the value as is.
    assert_eq!(
        get("XDG_DOWNLOAD_DIR=\"$HOME//srv\"\n", UserDir::Download),
        path("/home/alice//srv")
    );
}

#[test]
fn a_later_home_valued_entry_disables_the_directory() {
    let contents = "XDG_DOWNLOAD_DIR=\"$HOME/First\"\nXDG_DOWNLOAD_DIR=\"$HOME/\"\n";
    assert_eq!(get(contents, UserDir::Download), None);
    let contents = "XDG_DOWNLOAD_DIR=\"/srv/dl\"\nXDG_DOWNLOAD_DIR=\"/home/alice\"\n";
    assert_eq!(get(contents, UserDir::Download), None);
    // A malformed later line is no entry, so the earlier value stands.
    let contents = "XDG_DOWNLOAD_DIR=\"$HOME/First\"\nXDG_DOWNLOAD_DIR=$HOME\n";
    assert_eq!(get(contents, UserDir::Download), path("/home/alice/First"));
}

fn xdg_env(file: Option<&str>) -> Environment {
    Environment {
        platform: Platform::Xdg,
        home: Some(home()),
        data_home: None,
        user_dirs_file: file.map(|f| f.as_bytes().to_vec()),
        known_folders: Vec::new(),
    }
}

#[test]
fn xdg_resolve_reads_the_file_and_derives_fonts() {
    let env = xdg_env(Some("XDG_VIDEOS_DIR=\"$HOME/Videos\"\n"));
    assert_eq!(resolve(&env, UserDir::Video), path("/home/alice/Videos"));
    assert_eq!(resolve(&env, UserDir::Font), path("/home/alice/.local/share/fonts"));
    assert_eq!(resolve(&env, UserDir::Desktop), None);
}

#[test]
fn xdg_without_home_resolves_nothing() {
    let mut env = xdg_env(Some("XDG_VIDEOS_DIR=\"/v\"\n"));
    env.home = Some(Vec::new());
    assert_eq!(resolve(&env, UserDir::Video), None);
    assert_eq!(resolve(&env, UserDir::Font), None);
    assert!(userdirs::UserDirs::new(&env).is_none());
}

#[test]
fn xdg_resolve_all_agrees_with_resolve() {
    let env = xdg_env(Some("XDG_VIDEOS_DIR=\"$HOME/Videos\"\nXDG_MUSIC_DIR=\"/m\"\n"));
    let all = userdirs::UserDirs::new(&env).expect("home is known");
    for which in UserDir::all() {
        assert_eq!(all.get(which).map(|p| p.to_vec()), resolve(&env, which), "{which:?}");
    }
}
