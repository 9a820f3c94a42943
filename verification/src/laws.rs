//! What each lookup gives, stated over its inputs with the names, keys and
//! folders written out, so that the tables the code reads from are held to
//! the documented conventions.
use vstd::prelude::*;
use crate::path::{first_index, join_spec, lemma_first_index_is, same_path_spec, split, SLASH};
use crate::xdg::{
    xdg_key, key_name, apply_lines, ascii, dir_for_key_spec, empty_table, find_dir, home_prefix, is_ws,
    key_matches, parse_line_spec, parse_spec, trim_back, trim_front, trim_spec, unquote_spec,
    value_path, BACKSLASH, EQUALS, HASH, NEWLINE, QUOTE,
};
use crate::{resolve_all_spec, resolve_spec, Environment, Platform, UserDir};

verus! {

/// The line `XDG_<key>_DIR="$HOME/<x>"` of a `user-dirs.dirs` file.
pub open spec fn entry_line(key: Seq<char>, x: Seq<u8>) -> Seq<u8> {
    ascii(seq!['X', 'D', 'G', '_'] + key + seq!['_', 'D', 'I', 'R', '=', '"', '$', 'H', 'O', 'M', 'E', '/'])
        + x + seq![0x22u8]
}

/// What a `$HOME/<x>` value sets: the home directory, one `/`, then `x`;
/// nothing where that is the home directory itself.
pub open spec fn home_entry(h: Seq<u8>, x: Seq<u8>) -> Option<Seq<u8>> {
    let p = h + seq![0x2fu8] + x;
    if same_path_spec(p, h) {
        None
    } else {
        Some(p)
    }
}

/// A value body that holds no quote, no backslash and no line end.
pub open spec fn plain(x: Seq<u8>) -> bool {
    forall|i: int| 0 <= i < x.len() ==> x[i] != 0x22u8 && x[i] != 0x5cu8 && x[i] != 0x0au8
}

/// A table that has `e` at index `i` and nothing anywhere else.
pub open spec fn only(i: int, e: Option<Seq<u8>>) -> Seq<Option<Seq<u8>>> {
    Seq::new(10, |j: int| if j == i { e } else { None })
}

proof fn lemma_trim_id(s: Seq<u8>)
    requires
        s.len() > 0,
        !is_ws(s[0]),
        !is_ws(s.last()),
    ensures
        trim_spec(s) == s,
{
    assert(trim_front(s) == s);
    assert(trim_back(s) == s);
}

proof fn lemma_unquote_plain(x: Seq<u8>)
    requires
        plain(x),
    ensures
        unquote_spec(x + seq![QUOTE]) == Some(x),
    decreases x.len(),
{
    let s = x + seq![QUOTE];
    if x.len() == 0 {
        assert(s[0] == QUOTE);
    } else {
        assert(s[0] == x[0]);
        assert(s.drop_first() =~= x.drop_first() + seq![QUOTE]);
        lemma_unquote_plain(x.drop_first());
        assert(seq![x[0]] + x.drop_first() =~= x);
    }
}

/// The only entry a single well-formed `$HOME/` line makes is the one its
/// key names.
proof fn lemma_single_line(key: Seq<u8>, x: Seq<u8>, h: Seq<u8>, w: UserDir)
    requires
        key.len() > 0,
        key[0] == 0x58u8,
        key.last() == 0x52u8,
        forall|i: int| 0 <= i < key.len() ==> key[i] != EQUALS && key[i] != NEWLINE,
        dir_for_key_spec(key) == Some(w),
        plain(x),
    ensures
        parse_spec(key + ascii(seq!['=', '"', '$', 'H', 'O', 'M', 'E', '/']) + x + seq![QUOTE], h)
            == empty_table().update(w.index_of() as int, home_entry(h, x)),
{
    let tail = ascii(seq!['=', '"', '$', 'H', 'O', 'M', 'E', '/']);
    let line = key + tail + x + seq![QUOTE];
    let k = key.len() as int;
    // No line end: the file is this one line.
    assert forall|j: int| 0 <= j < line.len() implies line[j] != NEWLINE by {
        if j < k {
        } else if j < k + 8 {
            assert(line[j] == tail[j - k]);
        } else if j < k + 8 + x.len() {
            assert(line[j] == x[j - k - 8]);
        } else {
            assert(line[j] == QUOTE);
        }
    }
    lemma_first_index_is(line, NEWLINE, line.len() as int);
    assert(split(line, NEWLINE) == seq![line]);
    assert(seq![line].drop_last() =~= Seq::<Seq<u8>>::empty());
    // Trimming leaves the line as it is.
    assert(line[0] == key[0]);
    assert(line.last() == QUOTE);
    lemma_trim_id(line);
    // The key ends at the first `=`.
    assert forall|j: int| 0 <= j < k implies line[j] != EQUALS by {
        assert(line[j] == key[j]);
    }
    assert(line[k] == tail[0]);
    lemma_first_index_is(line, EQUALS, k);
    assert(first_index(line, EQUALS) == k);
    assert(line.take(k) =~= key);
    assert(key[k - 1] == key.last());
    lemma_trim_id(key);
    // The value: `"$HOME/` then `x` then the closing quote.
    let after = line.skip(k + 1);
    let quoted = ascii(seq!['"', '$', 'H', 'O', 'M', 'E', '/']) + x + seq![QUOTE];
    assert(after =~= quoted);
    assert(quoted[0] == QUOTE);
    assert(quoted.last() == QUOTE);
    lemma_trim_id(quoted);
    let raw = quoted.drop_first();
    assert(raw =~= home_prefix() + (x + seq![QUOTE]));
    assert(raw.take(6) =~= home_prefix());
    assert(raw.skip(6) =~= x + seq![QUOTE]);
    lemma_unquote_plain(x);
    assert(value_path(raw, h) == Some(h + seq![SLASH] + x));
    assert(parse_line_spec(line, h) == Some((w, home_entry(h, x))));
    assert(seq![line].last() == line);
    assert(apply_lines(seq![line].drop_last(), h) == empty_table());
    assert(apply_lines(seq![line], h) == empty_table().update(w.index_of() as int, home_entry(h, x)));
}

/// Every character is an upper-case ASCII letter.
pub open spec fn upper(cs: Seq<char>) -> bool {
    forall|i: int| 0 <= i < cs.len() ==> 'A' <= #[trigger] cs[i] <= 'Z'
}

proof fn lemma_names_differ(a: Seq<char>, b: Seq<char>, i: int)
    requires
        upper(a),
        upper(b),
        a.len() == b.len(),
        0 <= i < a.len(),
        a[i] != b[i],
    ensures
        xdg_key(a) != xdg_key(b),
{
    let ca = seq!['X', 'D', 'G', '_'] + a + seq!['_', 'D', 'I', 'R'];
    let cb = seq!['X', 'D', 'G', '_'] + b + seq!['_', 'D', 'I', 'R'];
    assert(ca[4 + i] == a[i]);
    assert(cb[4 + i] == b[i]);
    assert('A' <= a[i] <= 'Z');
    assert('A' <= b[i] <= 'Z');
    assert(xdg_key(a)[4 + i] == a[i] as u8);
    assert(xdg_key(b)[4 + i] == b[i] as u8);
    assert((a[i] as u8) != (b[i] as u8));
}

proof fn lemma_key_names_distinct(w1: UserDir, w2: UserDir)
    requires
        w1 != w2,
        key_name(w1) is Some,
        key_name(w2) is Some,
    ensures
        xdg_key(key_name(w1)->0) != xdg_key(key_name(w2)->0),
{
    let a = key_name(w1)->0;
    let b = key_name(w2)->0;
    assert(upper(a));
    assert(upper(b));
    if a.len() != b.len() {
        assert(xdg_key(a).len() != xdg_key(b).len());
    } else if a[0] != b[0] {
        lemma_names_differ(a, b, 0);
    } else {
        assert(a[1] != b[1]);
        lemma_names_differ(a, b, 1);
    }
}

proof fn lemma_find_unique(key: Seq<u8>, ds: Seq<UserDir>, w: UserDir)
    requires
        ds.contains(w),
        key_matches(key, w),
        forall|w2: UserDir| w2 != w ==> !key_matches(key, w2),
    ensures
        find_dir(key, ds) == Some(w),
    decreases ds.len(),
{
    if ds[0] != w {
        let j = choose|j: int| 0 <= j < ds.len() && ds[j] == w;
        assert(ds.drop_first()[j - 1] == w);
        lemma_find_unique(key, ds.drop_first(), w);
    }
}

/// The directory recorded under `XDG_<name>_DIR` for `w`'s own name.
proof fn lemma_key_finds(w: UserDir)
    requires
        key_name(w) is Some,
    ensures
        dir_for_key_spec(xdg_key(key_name(w)->0)) == Some(w),
{
    let key = xdg_key(key_name(w)->0);
    assert forall|w2: UserDir| w2 != w implies !key_matches(key, w2) by {
        if key_name(w2) is Some {
            lemma_key_names_distinct(w, w2);
        }
    }
    crate::lemma_index_bijection();
    assert(UserDir::all_seq()[w.index_of() as int] == w);
    lemma_find_unique(key, UserDir::all_seq(), w);
}

proof fn lemma_key_shape(k: Seq<char>)
    requires
        upper(k),
    ensures
        xdg_key(k).len() > 0,
        xdg_key(k)[0] == 0x58u8,
        xdg_key(k).last() == 0x52u8,
        forall|i: int| 0 <= i < xdg_key(k).len() ==> xdg_key(k)[i] != EQUALS && xdg_key(k)[i] != NEWLINE,
{
    let cs = seq!['X', 'D', 'G', '_'] + k + seq!['_', 'D', 'I', 'R'];
    assert forall|i: int| 0 <= i < cs.len() implies 'A' <= #[trigger] cs[i] <= '_' by {
        if 4 <= i < 4 + k.len() {
            assert(cs[i] == k[i - 4]);
        }
    }
    assert forall|i: int| 0 <= i < xdg_key(k).len() implies xdg_key(k)[i] != EQUALS && xdg_key(k)[i]
        != NEWLINE by {
        assert('A' <= cs[i] <= '_');
        assert(xdg_key(k)[i] == cs[i] as u8);
    }
}

proof fn lemma_entry_for(w: UserDir, k: Seq<char>, x: Seq<u8>, h: Seq<u8>)
    requires
        key_name(w) == Some(k),
        plain(x),
    ensures
        parse_spec(entry_line(k, x), h) == only(w.index_of() as int, home_entry(h, x)),
{
    assert(upper(k));
    lemma_key_shape(k);
    lemma_key_finds(w);
    let key = xdg_key(k);
    let tail = ascii(seq!['=', '"', '$', 'H', 'O', 'M', 'E', '/']);
    assert(entry_line(k, x) =~= key + tail + x + seq![QUOTE]);
    lemma_single_line(key, x, h, w);
    crate::lemma_index_bijection();
    assert(empty_table().update(w.index_of() as int, home_entry(h, x)) =~= only(
        w.index_of() as int,
        home_entry(h, x),
    ));
}

/// Each directory is recorded under its own fixed key of `user-dirs.dirs`:
/// the single line `XDG_<KEY>_DIR="$HOME/<x>"` sets that directory, and no
/// other, to the home directory, one `/` and `x` (disabling it where that is
/// the home directory itself). The keys are `MUSIC` for audio, `DESKTOP`,
/// `DOCUMENTS`, `DOWNLOAD`, `PICTURES`, `PROJECTS`, `PUBLICSHARE` for the
/// public share, `TEMPLATES` and `VIDEOS`.
pub proof fn lemma_user_dirs_keys(h: Seq<u8>, x: Seq<u8>)
    requires
        plain(x),
    ensures
        parse_spec(entry_line(seq!['M', 'U', 'S', 'I', 'C'], x), h) == only(
            UserDir::Audio.index_of() as int,
            home_entry(h, x),
        ),
        parse_spec(entry_line(seq!['D', 'E', 'S', 'K', 'T', 'O', 'P'], x), h) == only(
            UserDir::Desktop.index_of() as int,
            home_entry(h, x),
        ),
        parse_spec(entry_line(seq!['D', 'O', 'C', 'U', 'M', 'E', 'N', 'T', 'S'], x), h) == only(
            UserDir::Document.index_of() as int,
            home_entry(h, x),
        ),
        parse_spec(entry_line(seq!['D', 'O', 'W', 'N', 'L', 'O', 'A', 'D'], x), h) == only(
            UserDir::Download.index_of() as int,
            home_entry(h, x),
        ),
        parse_spec(entry_line(seq!['P', 'I', 'C', 'T', 'U', 'R', 'E', 'S'], x), h) == only(
            UserDir::Picture.index_of() as int,
            home_entry(h, x),
        ),
        parse_spec(entry_line(seq!['P', 'R', 'O', 'J', 'E', 'C', 'T', 'S'], x), h) == only(
            UserDir::Project.index_of() as int,
            home_entry(h, x),
        ),
        parse_spec(
            entry_line(seq!['P', 'U', 'B', 'L', 'I', 'C', 'S', 'H', 'A', 'R', 'E'], x),
            h,
        ) == only(UserDir::Public.index_of() as int, home_entry(h, x)),
        parse_spec(entry_line(seq!['T', 'E', 'M', 'P', 'L', 'A', 'T', 'E', 'S'], x), h) == only(
            UserDir::Template.index_of() as int,
            home_entry(h, x),
        ),
        parse_spec(entry_line(seq!['V', 'I', 'D', 'E', 'O', 'S'], x), h) == only(
            UserDir::Video.index_of() as int,
            home_entry(h, x),
        ),
{
    lemma_entry_for(UserDir::Audio, seq!['M', 'U', 'S', 'I', 'C'], x, h);
    lemma_entry_for(UserDir::Desktop, seq!['D', 'E', 'S', 'K', 'T', 'O', 'P'], x, h);
    lemma_entry_for(UserDir::Document, seq!['D', 'O', 'C', 'U', 'M', 'E', 'N', 'T', 'S'], x, h);
    lemma_entry_for(UserDir::Download, seq!['D', 'O', 'W', 'N', 'L', 'O', 'A', 'D'], x, h);
    lemma_entry_for(UserDir::Picture, seq!['P', 'I', 'C', 'T', 'U', 'R', 'E', 'S'], x, h);
    lemma_entry_for(UserDir::Project, seq!['P', 'R', 'O', 'J', 'E', 'C', 'T', 'S'], x, h);
    lemma_entry_for(
        UserDir::Public,
        seq!['P', 'U', 'B', 'L', 'I', 'C', 'S', 'H', 'A', 'R', 'E'],
        x,
        h,
    );
    lemma_entry_for(UserDir::Template, seq!['T', 'E', 'M', 'P', 'L', 'A', 'T', 'E', 'S'], x, h);
    lemma_entry_for(UserDir::Video, seq!['V', 'I', 'D', 'E', 'O', 'S'], x, h);
}

proof fn lemma_found_matches(key: Seq<u8>, ds: Seq<UserDir>)
    requires
        find_dir(key, ds) is Some,
    ensures
        key_matches(key, find_dir(key, ds)->0),
    decreases ds.len(),
{
    if ds.len() > 0 && !key_matches(key, ds[0]) {
        lemma_found_matches(key, ds.drop_first());
    }
}

proof fn lemma_no_font_lines(lines: Seq<Seq<u8>>, h: Seq<u8>)
    ensures
        apply_lines(lines, h)[UserDir::Font.index_of() as int] is None,
    decreases lines.len(),
{
    crate::xdg::lemma_apply_lines_len(lines, h);
    if lines.len() > 0 {
        lemma_no_font_lines(lines.drop_last(), h);
        crate::xdg::lemma_apply_lines_len(lines.drop_last(), h);
        let t = trim_spec(lines.last());
        let eq = first_index(t, EQUALS);
        let key = trim_spec(t.take(eq as int));
        if find_dir(key, UserDir::all_seq()) is Some {
            lemma_found_matches(key, UserDir::all_seq());
        }
    }
}

/// `user-dirs.dirs` never records the font directory: whatever the file
/// holds, its entry is absent (the font directory comes from the data home).
pub proof fn lemma_file_never_sets_fonts(contents: Seq<u8>, h: Seq<u8>)
    ensures
        parse_spec(contents, h)[UserDir::Font.index_of() as int] is None,
{
    lemma_no_font_lines(split(contents, NEWLINE), h);
}

/// The bytes of an optional environment value.
pub open spec fn bytes_of(o: Option<Vec<u8>>) -> Option<Seq<u8>> {
    match o {
        Some(v) => Some(v@),
        None => None,
    }
}

/// On an XDG platform with a home directory `h`: the font directory is
/// `fonts` under `$XDG_DATA_HOME` where that is set and absolute, and under
/// `h/.local/share` otherwise; every other directory is the entry the
/// `user-dirs.dirs` bytes give it, and absent without a file. `UserDirs::new`
/// resolves the same.
pub proof fn lemma_xdg_dirs(env: Environment)
    requires
        env.platform == Platform::Xdg,
        bytes_of(env.home) is Some,
        bytes_of(env.home)->0.len() > 0,
    ensures
        ({
            let h = bytes_of(env.home)->0;
            let fonts = ascii(seq!['f', 'o', 'n', 't', 's']);
            let font = if bytes_of(env.data_home) is Some && bytes_of(env.data_home)->0.len() > 0
                && bytes_of(env.data_home)->0[0] == 0x2fu8 {
                join_spec(bytes_of(env.data_home)->0, fonts)
            } else {
                join_spec(
                    join_spec(
                        h,
                        ascii(seq!['.', 'l', 'o', 'c', 'a', 'l', '/', 's', 'h', 'a', 'r', 'e']),
                    ),
                    fonts,
                )
            };
            &&& resolve_spec(env, UserDir::Font) == Some(font)
            &&& resolve_all_spec(env) is Some
            &&& resolve_all_spec(env)->0[UserDir::Font.index_of() as int] == Some(font)
            &&& forall|w: UserDir|
                w != UserDir::Font ==> #[trigger] resolve_spec(env, w) == match bytes_of(
                    env.user_dirs_file,
                ) {
                    Some(c) => parse_spec(c, h)[w.index_of() as int],
                    None => None,
                }
        }),
{
    let h = bytes_of(env.home)->0;
    crate::xdg::lemma_table_len(bytes_of(env.user_dirs_file), h);
    crate::lemma_index_bijection();
    assert forall|w: UserDir| w != UserDir::Font implies #[trigger] resolve_spec(env, w) == match bytes_of(
        env.user_dirs_file,
    ) {
        Some(c) => parse_spec(c, h)[w.index_of() as int],
        None => None,
    } by {
        if bytes_of(env.user_dirs_file) is None {
            assert(crate::xdg::empty_table()[w.index_of() as int] is None);
        }
    }
}

/// The path the shell reported for the known folder at position `i` of
/// `Environment::known_folders` (`Music`, `Desktop`, `Documents`,
/// `Downloads`, `Pictures`, `Public`, `Templates`, `Videos`,
/// `LocalAppData`, in that order): absent where the lookup failed or gave an
/// empty path.
pub open spec fn shell_reported(env: Environment, i: int) -> Option<Seq<u8>> {
    if 0 <= i < env.known_folders@.len() && env.known_folders@[i] is Some
        && env.known_folders@[i]->0@.len() > 0 {
        Some(env.known_folders@[i]->0@)
    } else {
        None
    }
}

/// On Windows each media directory is exactly what the shell reported for
/// its own known folder (audio: Music, desktop: Desktop, documents:
/// Documents, downloads: Downloads, pictures: Pictures, public: Public,
/// templates: Templates, videos: Videos); there is no projects directory;
/// the font directory is `Microsoft\Windows\Fonts` under Local AppData.
/// `UserDirs::new` succeeds as soon as any folder was reported.
pub proof fn lemma_windows_dirs(env: Environment)
    requires
        env.platform == Platform::Windows,
    ensures
        resolve_spec(env, UserDir::Audio) == shell_reported(env, 0),
        resolve_spec(env, UserDir::Desktop) == shell_reported(env, 1),
        resolve_spec(env, UserDir::Document) == shell_reported(env, 2),
        resolve_spec(env, UserDir::Download) == shell_reported(env, 3),
        resolve_spec(env, UserDir::Picture) == shell_reported(env, 4),
        resolve_spec(env, UserDir::Public) == shell_reported(env, 5),
        resolve_spec(env, UserDir::Template) == shell_reported(env, 6),
        resolve_spec(env, UserDir::Video) == shell_reported(env, 7),
        resolve_spec(env, UserDir::Project) is None,
        resolve_spec(env, UserDir::Font) == match shell_reported(env, 8) {
            None => None,
            Some(b) => Some(
                if b.last() == 0x5cu8 || b.last() == 0x2fu8 || crate::windows::is_bare_drive(b) {
                    b + ascii(
                        seq![
                            'M', 'i', 'c', 'r', 'o', 's', 'o', 'f', 't', '\\', 'W', 'i', 'n',
                            'd', 'o', 'w', 's', '\\', 'F', 'o', 'n', 't', 's'
                        ],
                    )
                } else {
                    b + ascii(
                        seq![
                            '\\', 'M', 'i', 'c', 'r', 'o', 's', 'o', 'f', 't', '\\', 'W', 'i',
                            'n', 'd', 'o', 'w', 's', '\\', 'F', 'o', 'n', 't', 's'
                        ],
                    )
                },
            ),
        },
        (exists|i: int| 0 <= i < 9 && #[trigger] shell_reported(env, i) is Some) ==> resolve_all_spec(env) is Some,
{
    crate::lemma_index_bijection();
    crate::lemma_new_agrees_with_resolve(env);
    if let Some(b) = shell_reported(env, 8) {
        let m = ascii(seq!['M', 'i', 'c', 'r', 'o', 's', 'o', 'f', 't']);
        let wn = ascii(seq!['W', 'i', 'n', 'd', 'o', 'w', 's']);
        let f = ascii(seq!['F', 'o', 'n', 't', 's']);
        let names = seq![m, wn, f];
        let p1 = crate::windows::push_spec(b, m);
        let p2 = crate::windows::push_spec(p1, wn);
        let p3 = crate::windows::push_spec(p2, f);
        assert(names.drop_first() =~= seq![wn, f]);
        assert(seq![wn, f].drop_first() =~= seq![f]);
        assert(seq![f].drop_first() =~= Seq::<Seq<u8>>::empty());
        assert(names[0] == m);
        assert(seq![wn, f][0] == wn);
        assert(seq![f][0] == f);
        assert(crate::windows::extend_spec(p3, Seq::<Seq<u8>>::empty()) == p3);
        assert(crate::windows::extend_spec(p2, seq![f]) == p3);
        assert(crate::windows::extend_spec(p1, seq![wn, f]) == p3);
        assert(crate::windows::extend_spec(b, names) == p3);
        assert(p1.last() == m.last());
        assert(p2.last() == wn.last());
        assert(!crate::windows::is_bare_drive(p1)) by {
            assert(p1.len() >= m.len());
        }
        assert(!crate::windows::is_bare_drive(p2)) by {
            assert(p2.len() >= wn.len());
        }
        if b.last() == 0x5cu8 || b.last() == 0x2fu8 || crate::windows::is_bare_drive(b) {
            assert(p3 =~= b + ascii(
                seq![
                    'M', 'i', 'c', 'r', 'o', 's', 'o', 'f', 't', '\\', 'W', 'i', 'n', 'd', 'o',
                    'w', 's', '\\', 'F', 'o', 'n', 't', 's'
                ],
            ));
        } else {
            assert(p3 =~= b + ascii(
                seq![
                    '\\', 'M', 'i', 'c', 'r', 'o', 's', 'o', 'f', 't', '\\', 'W', 'i', 'n',
                    'd', 'o', 'w', 's', '\\', 'F', 'o', 'n', 't', 's'
                ],
            ));
        }
    }
    if exists|i: int| 0 <= i < 9 && #[trigger] shell_reported(env, i) is Some {
        let i = choose|i: int| 0 <= i < 9 && #[trigger] shell_reported(env, i) is Some;
        let w = if i == 0 {
            UserDir::Audio
        } else if i == 1 {
            UserDir::Desktop
        } else if i == 2 {
            UserDir::Document
        } else if i == 3 {
            UserDir::Download
        } else if i == 4 {
            UserDir::Picture
        } else if i == 5 {
            UserDir::Public
        } else if i == 6 {
            UserDir::Template
        } else if i == 7 {
            UserDir::Video
        } else {
            UserDir::Font
        };
        assert(resolve_spec(env, w) is Some);
    }
}

/// On macOS each directory is the home directory `h` joined with its fixed
/// name: `Music`, `Desktop`, `Documents`, `Downloads`, `Library/Fonts`,
/// `Pictures`, `Public` and `Movies`; there is no template and no projects
/// directory. `UserDirs::new` succeeds whenever `h` is known.
pub proof fn lemma_apple_dirs(env: Environment)
    requires
        env.platform == Platform::Apple,
        bytes_of(env.home) is Some,
        bytes_of(env.home)->0.len() > 0,
    ensures
        ({
            let h = bytes_of(env.home)->0;
            &&& resolve_spec(env, UserDir::Audio) == Some(
                join_spec(h, ascii(seq!['M', 'u', 's', 'i', 'c'])),
            )
            &&& resolve_spec(env, UserDir::Desktop) == Some(
                join_spec(h, ascii(seq!['D', 'e', 's', 'k', 't', 'o', 'p'])),
            )
            &&& resolve_spec(env, UserDir::Document) == Some(
                join_spec(h, ascii(seq!['D', 'o', 'c', 'u', 'm', 'e', 'n', 't', 's'])),
            )
            &&& resolve_spec(env, UserDir::Download) == Some(
                join_spec(h, ascii(seq!['D', 'o', 'w', 'n', 'l', 'o', 'a', 'd', 's'])),
            )
            &&& resolve_spec(env, UserDir::Font) == Some(
                join_spec(
                    h,
                    ascii(seq!['L', 'i', 'b', 'r', 'a', 'r', 'y', '/', 'F', 'o', 'n', 't', 's']),
                ),
            )
            &&& resolve_spec(env, UserDir::Picture) == Some(
                join_spec(h, ascii(seq!['P', 'i', 'c', 't', 'u', 'r', 'e', 's'])),
            )
            &&& resolve_spec(env, UserDir::Public) == Some(
                join_spec(h, ascii(seq!['P', 'u', 'b', 'l', 'i', 'c'])),
            )
            &&& resolve_spec(env, UserDir::Video) == Some(
                join_spec(h, ascii(seq!['M', 'o', 'v', 'i', 'e', 's'])),
            )
            &&& resolve_spec(env, UserDir::Template) is None
            &&& resolve_spec(env, UserDir::Project) is None
            &&& resolve_all_spec(env) is Some
        }),
{
}

/// A value body that holds no quote and no backslash.
pub open spec fn unescaped(x: Seq<u8>) -> bool {
    forall|i: int| 0 <= i < x.len() ==> x[i] != 0x22u8 && x[i] != 0x5cu8
}

proof fn lemma_unquote_prefix(x: Seq<u8>, rest: Seq<u8>)
    requires
        unescaped(x),
    ensures
        unquote_spec(x + rest) == match unquote_spec(rest) {
            Some(r) => Some(x + r),
            None => None,
        },
    decreases x.len(),
{
    if x.len() > 0 {
        let s = x + rest;
        assert(s[0] == x[0]);
        assert(s.drop_first() =~= x.drop_first() + rest);
        lemma_unquote_prefix(x.drop_first(), rest);
        if let Some(r) = unquote_spec(rest) {
            assert(seq![x[0]] + (x.drop_first() + r) =~= x + r);
        }
    } else {
        assert(x + rest =~= rest);
        if let Some(r) = unquote_spec(rest) {
            assert(x + r =~= r);
        }
    }
}

/// Quoted values: the value ends at the first unescaped `"`, whatever
/// follows it; a `\` makes the byte after it part of the value, whatever
/// that byte is; and a value whose quote never closes is no value.
pub proof fn lemma_quoting(x: Seq<u8>, c: u8, rest: Seq<u8>)
    requires
        unescaped(x),
    ensures
        unquote_spec(x + seq![0x22u8] + rest) == Some(x),
        unquote_spec(x + seq![0x5cu8, c] + rest) == match unquote_spec(rest) {
            Some(r) => Some(x + seq![c] + r),
            None => None,
        },
        unquote_spec(x) is None,
        unquote_spec(x + seq![0x5cu8]) is None,
{
    lemma_unquote_prefix(x, seq![0x22u8] + rest);
    assert(x + seq![0x22u8] + rest =~= x + (seq![0x22u8] + rest));
    assert((seq![0x22u8] + rest)[0] == QUOTE);
    assert(x + seq![] =~= x);
    let e = seq![0x5cu8, c] + rest;
    lemma_unquote_prefix(x, e);
    assert(x + seq![0x5cu8, c] + rest =~= x + e);
    assert(e[0] == BACKSLASH);
    assert(e[1] == c);
    assert(e.skip(2) =~= rest);
    if let Some(r) = unquote_spec(rest) {
        assert(x + (seq![c] + r) =~= x + seq![c] + r);
    }
    lemma_unquote_prefix(x, Seq::<u8>::empty());
    assert(x + Seq::<u8>::empty() =~= x);
    lemma_unquote_prefix(x, seq![0x5cu8]);
}

/// ASCII whitespace: space, tab, line feed, form feed, carriage return.
pub open spec fn blank(s: Seq<u8>) -> bool {
    forall|i: int|
        0 <= i < s.len() ==> s[i] == 0x20u8 || s[i] == 0x09u8 || s[i] == 0x0au8 || s[i] == 0x0cu8
            || s[i] == 0x0du8
}

proof fn lemma_trim_front_blank(pre: Seq<u8>, s: Seq<u8>)
    requires
        blank(pre),
        s.len() > 0,
        !(s[0] == 0x20u8 || s[0] == 0x09u8 || s[0] == 0x0au8 || s[0] == 0x0cu8 || s[0] == 0x0du8),
    ensures
        trim_front(pre + s) == s,
    decreases pre.len(),
{
    if pre.len() == 0 {
        assert(pre + s =~= s);
    } else {
        assert((pre + s)[0] == pre[0]);
        assert((pre + s).drop_first() =~= pre.drop_first() + s);
        lemma_trim_front_blank(pre.drop_first(), s);
    }
}

proof fn lemma_trim_back_blank(s: Seq<u8>, post: Seq<u8>)
    requires
        blank(post),
        s.len() > 0,
        !(s.last() == 0x20u8 || s.last() == 0x09u8 || s.last() == 0x0au8 || s.last() == 0x0cu8
            || s.last() == 0x0du8),
    ensures
        trim_back(s + post) == s,
    decreases post.len(),
{
    if post.len() == 0 {
        assert(s + post =~= s);
    } else {
        assert((s + post).last() == post.last());
        assert((s + post).drop_last() =~= s + post.drop_last());
        lemma_trim_back_blank(s, post.drop_last());
    }
}

/// Trimming removes exactly the ASCII whitespace around a line, key or
/// value, `\r` included, and nothing else.
pub proof fn lemma_trim_blanks(pre: Seq<u8>, s: Seq<u8>, post: Seq<u8>)
    requires
        blank(pre),
        blank(post),
        s.len() > 0,
        !(s[0] == 0x20u8 || s[0] == 0x09u8 || s[0] == 0x0au8 || s[0] == 0x0cu8 || s[0] == 0x0du8),
        !(s.last() == 0x20u8 || s.last() == 0x09u8 || s.last() == 0x0au8 || s.last() == 0x0cu8
            || s.last() == 0x0du8),
    ensures
        trim_spec(pre + s + post) == s,
{
    assert(pre + s + post =~= pre + (s + post));
    assert((s + post)[0] == s[0]);
    lemma_trim_front_blank(pre, s + post);
    lemma_trim_back_blank(s, post);
}

/// A line that starts with `#` (after whitespace) is a comment: it is no
/// entry, so it changes nothing that the lines before it set.
pub proof fn lemma_comment_lines(a: Seq<u8>, rest: Seq<u8>, h: Seq<u8>)
    requires
        forall|i: int| 0 <= i < rest.len() ==> rest[i] != 0x0au8,
    ensures
        parse_spec(a + seq![0x0au8] + (seq![0x23u8] + rest), h) == parse_spec(a, h),
{
    let line = seq![0x23u8] + rest;
    assert forall|j: int| 0 <= j < line.len() implies line[j] != NEWLINE by {
        if j > 0 {
            assert(line[j] == rest[j - 1]);
        }
    }
    lemma_first_index_is(line, NEWLINE, line.len() as int);
    assert(split(line, NEWLINE) == seq![line]);
    assert(seq![line].drop_last() =~= Seq::<Seq<u8>>::empty());
    assert(seq![line].last() == line);
    assert(line[0] == HASH);
    assert(trim_front(line) == line);
    // Trimming the back keeps the leading `#`.
    lemma_trim_back_keeps_first(line);
    assert(parse_line_spec(line, h) is None);
    assert(apply_lines(seq![line].drop_last(), h) == empty_table());
    assert(apply_lines(seq![line], h) == empty_table());
    crate::xdg::lemma_parse_concat(a, line, h);
    crate::xdg::lemma_table_len(Some(a), h);
    assert(!crate::xdg::has_entry(seq![line].drop_last(), h, 0));
    assert forall|i: int| 0 <= i < 10 implies !crate::xdg::file_has_entry(line, h, i) by {
        assert(!crate::xdg::has_entry(Seq::<Seq<u8>>::empty(), h, i));
    }
    assert(parse_spec(a + seq![0x0au8] + line, h) =~= parse_spec(a, h));
}

proof fn lemma_trim_back_keeps_first(s: Seq<u8>)
    requires
        s.len() > 0,
        !is_ws(s[0]),
    ensures
        trim_back(s).len() > 0,
        trim_back(s)[0] == s[0],
    decreases s.len(),
{
    if is_ws(s.last()) {
        assert(s.len() > 1);
        assert(s.drop_last()[0] == s[0]);
        lemma_trim_back_keeps_first(s.drop_last());
    }
}

proof fn lemma_single_absolute_line(key: Seq<u8>, x: Seq<u8>, h: Seq<u8>, w: UserDir)
    requires
        key.len() > 0,
        key[0] == 0x58u8,
        key.last() == 0x52u8,
        forall|i: int| 0 <= i < key.len() ==> key[i] != EQUALS && key[i] != NEWLINE,
        dir_for_key_spec(key) == Some(w),
        plain(x),
        x.len() > 0,
        x[0] == SLASH,
    ensures
        parse_spec(key + ascii(seq!['=', '"']) + x + seq![QUOTE], h) == empty_table().update(
            w.index_of() as int,
            if same_path_spec(x, h) {
                None
            } else {
                Some(x)
            },
        ),
{
    let tail = ascii(seq!['=', '"']);
    let line = key + tail + x + seq![QUOTE];
    let k = key.len() as int;
    assert forall|j: int| 0 <= j < line.len() implies line[j] != NEWLINE by {
        if j < k {
        } else if j < k + 2 {
            assert(line[j] == tail[j - k]);
        } else if j < k + 2 + x.len() {
            assert(line[j] == x[j - k - 2]);
        } else {
            assert(line[j] == QUOTE);
        }
    }
    lemma_first_index_is(line, NEWLINE, line.len() as int);
    assert(split(line, NEWLINE) == seq![line]);
    assert(seq![line].drop_last() =~= Seq::<Seq<u8>>::empty());
    assert(line[0] == key[0]);
    assert(line.last() == QUOTE);
    lemma_trim_id(line);
    assert forall|j: int| 0 <= j < k implies line[j] != EQUALS by {
        assert(line[j] == key[j]);
    }
    assert(line[k] == tail[0]);
    lemma_first_index_is(line, EQUALS, k);
    assert(line.take(k) =~= key);
    assert(key[k - 1] == key.last());
    lemma_trim_id(key);
    let quoted = seq![QUOTE] + x + seq![QUOTE];
    assert(line.skip(k + 1) =~= quoted);
    assert(quoted[0] == QUOTE);
    assert(quoted.last() == QUOTE);
    lemma_trim_id(quoted);
    let raw = quoted.drop_first();
    assert(raw =~= x + seq![QUOTE]);
    assert(raw[0] == SLASH);
    assert(!(raw.len() >= 6 && raw.take(6) == home_prefix())) by {
        if raw.len() >= 6 {
            assert(raw.take(6)[0] == SLASH);
            assert(seq!['$', 'H', 'O', 'M', 'E', '/'][0] == '$');
            assert(home_prefix()[0] == ('$' as u8));
            assert(home_prefix()[0] != SLASH);
        }
    }
    lemma_unquote_plain(x);
    assert(value_path(raw, h) == Some(x));
    assert(apply_lines(seq![line].drop_last(), h) == empty_table());
    assert(seq![line].last() == line);
}

/// An absolute value is taken as it is: the single line
/// `XDG_<KEY>_DIR="<x>"` with `x` starting at `/` sets `w` (the directory
/// recorded under that key), and nothing else, to `x`, or disables it where
/// `x` is the home directory itself.
pub proof fn lemma_absolute_entries(w: UserDir, k: Seq<char>, x: Seq<u8>, h: Seq<u8>)
    requires
        key_name(w) == Some(k),
        plain(x),
        x.len() > 0,
        x[0] == 0x2fu8,
    ensures
        parse_spec(
            ascii(seq!['X', 'D', 'G', '_'] + k + seq!['_', 'D', 'I', 'R', '=', '"']) + x + seq![
                0x22u8,
            ],
            h,
        ) == only(
            w.index_of() as int,
            if same_path_spec(x, h) {
                None
            } else {
                Some(x)
            },
        ),
{
    assert(upper(k));
    lemma_key_shape(k);
    lemma_key_finds(w);
    let key = xdg_key(k);
    assert(ascii(seq!['X', 'D', 'G', '_'] + k + seq!['_', 'D', 'I', 'R', '=', '"']) + x + seq![0x22u8]
        =~= key + ascii(seq!['=', '"']) + x + seq![QUOTE]);
    lemma_single_absolute_line(key, x, h, w);
    crate::lemma_index_bijection();
    let e = if same_path_spec(x, h) {
        None
    } else {
        Some(x)
    };
    assert(empty_table().update(w.index_of() as int, e) =~= only(w.index_of() as int, e));
}

/// `user-dirs.dirs` is read from `$XDG_CONFIG_HOME/user-dirs.dirs` where
/// that variable is set and absolute, and from `h/.config/user-dirs.dirs`
/// otherwise (unset, empty or relative).
pub proof fn lemma_user_dirs_file_location(var: Option<Seq<u8>>, h: Seq<u8>)
    ensures
        join_spec(
            crate::xdg::base_dir_spec(var, h, crate::xdg::config_fallback()),
            crate::xdg::user_dirs_name(),
        ) == join_spec(
            if var is Some && var->0.len() > 0 && var->0[0] == 0x2fu8 {
                var->0
            } else {
                join_spec(h, ascii(seq!['.', 'c', 'o', 'n', 'f', 'i', 'g']))
            },
            ascii(
                seq!['u', 's', 'e', 'r', '-', 'd', 'i', 'r', 's', '.', 'd', 'i', 'r', 's'],
            ),
        ),
{
}

} // verus!
