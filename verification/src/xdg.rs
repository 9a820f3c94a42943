//! Linux, BSD and other XDG platforms.
//!
//! The directories come from `${XDG_CONFIG_HOME:-$HOME/.config}/user-dirs.dirs`,
//! the file written by `xdg-user-dirs-update(1)`; the font directory comes
//! from `${XDG_DATA_HOME:-$HOME/.local/share}/fonts`.
use vstd::prelude::*;
use vstd::slice::slice_to_vec;
use vstd::string::is_ascii;
use vstd::utf8::is_ascii_chars;
use crate::path::{bytes_eq, find_byte, first_index, join, join_spec, lemma_bytes_deep_view, same_path, same_path_spec, split, SLASH};
use crate::{UserDir, COUNT};

verus! {

broadcast use vstd::string::is_ascii_spec_bytes;

/// `\n`, which ends a line.
pub const NEWLINE: u8 = 0x0a;

/// `#`, which starts a comment line.
pub const HASH: u8 = 0x23;

/// `=`, between key and value.
pub const EQUALS: u8 = 0x3d;

/// `"`, which opens and closes a value.
pub const QUOTE: u8 = 0x22;

/// `\`, which escapes the byte after it.
pub const BACKSLASH: u8 = 0x5c;

/// The bytes of an ASCII string.
pub open spec fn ascii(cs: Seq<char>) -> Seq<u8> {
    Seq::new(cs.len(), |i: int| cs[i] as u8)
}

/// The bytes of an ASCII string literal.
pub(crate) fn ascii_bytes(s: &str) -> (r: Vec<u8>)
    requires
        is_ascii_chars(s@),
    ensures
        r@ == ascii(s@),
{
    let b = s.as_bytes();
    proof {
        assert(is_ascii(s));
        assert(b@ =~= ascii(s@));
    }
    slice_to_vec(b)
}

/// `u8::is_ascii_whitespace`: space, tab, line feed, form feed, carriage return.
pub open spec fn is_ws(b: u8) -> bool {
    b == 0x20 || b == 0x09 || b == 0x0a || b == 0x0c || b == 0x0d
}

pub open spec fn trim_front(s: Seq<u8>) -> Seq<u8>
    decreases s.len(),
{
    if s.len() > 0 && is_ws(s[0]) {
        trim_front(s.drop_first())
    } else {
        s
    }
}

pub open spec fn trim_back(s: Seq<u8>) -> Seq<u8>
    decreases s.len(),
{
    if s.len() > 0 && is_ws(s.last()) {
        trim_back(s.drop_last())
    } else {
        s
    }
}

/// `s` without leading and trailing ASCII whitespace.
pub open spec fn trim_spec(s: Seq<u8>) -> Seq<u8> {
    trim_back(trim_front(s))
}

/// Trim leading and trailing ASCII whitespace, `\r` included so that CRLF line
/// endings do not leave a stray byte on the value.
pub fn trim(bytes: &[u8]) -> (r: &[u8])
    ensures
        r@ == trim_spec(bytes@),
{
    let n = bytes.len();
    let mut lo: usize = 0;
    assert(bytes@.subrange(0, n as int) =~= bytes@);
    while lo < n && is_ascii_ws(bytes[lo])
        invariant
            lo <= n == bytes@.len(),
            trim_front(bytes@) == trim_front(bytes@.subrange(lo as int, n as int)),
        decreases n - lo,
    {
        assert(bytes@.subrange(lo as int, n as int).drop_first() =~= bytes@.subrange(
            lo + 1,
            n as int,
        ));
        lo += 1;
    }
    let mut hi: usize = n;
    assert(trim_front(bytes@) == bytes@.subrange(lo as int, n as int));
    while hi > lo && is_ascii_ws(bytes[hi - 1])
        invariant
            lo <= hi <= n == bytes@.len(),
            trim_spec(bytes@) == trim_back(bytes@.subrange(lo as int, hi as int)),
        decreases hi - lo,
    {
        assert(bytes@.subrange(lo as int, hi as int).drop_last() =~= bytes@.subrange(
            lo as int,
            hi - 1,
        ));
        hi -= 1;
    }
    &bytes[lo..hi]
}

fn is_ascii_ws(b: u8) -> (r: bool)
    ensures
        r == is_ws(b),
{
    b == 0x20 || b == 0x09 || b == 0x0a || b == 0x0c || b == 0x0d
}

/// The value up to the first unescaped `"`, with each `\x` resolved to `x`;
/// `None` when the quote is never closed.
pub open spec fn unquote_spec(s: Seq<u8>) -> Option<Seq<u8>>
    decreases s.len(),
{
    if s.len() == 0 {
        None
    } else if s[0] == QUOTE {
        Some(seq![])
    } else if s[0] == BACKSLASH {
        if s.len() < 2 {
            None
        } else {
            match unquote_spec(s.skip(2)) {
                Some(r) => Some(seq![s[1]] + r),
                None => None,
            }
        }
    } else {
        match unquote_spec(s.drop_first()) {
            Some(r) => Some(seq![s[0]] + r),
            None => None,
        }
    }
}

/// Read a shell-quoted value up to the first unescaped `"`, resolving
/// backslash escapes. `None` if the quote is never closed.
pub fn unquote(bytes: &[u8]) -> (r: Option<Vec<u8>>)
    ensures
        r.deep_view() == unquote_spec(bytes@),
{
    let n = bytes.len();
    let mut out: Vec<u8> = Vec::new();
    let mut i: usize = 0;
    assert(bytes@.skip(0) =~= bytes@);
    while i < n
        invariant
            i <= n == bytes@.len(),
            unquote_spec(bytes@) == match unquote_spec(bytes@.skip(i as int)) {
                Some(r) => Some(out@ + r),
                None => None::<Seq<u8>>,
            },
        decreases n - i,
    {
        let ghost rest = bytes@.skip(i as int);
        let b = bytes[i];
        if b == QUOTE {
            assert(rest[0] == b);
            assert(out@ + seq![] =~= out@);
            proof {
                lemma_bytes_deep_view(out);
            }
            return Some(out);
        } else if b == BACKSLASH {
            if i + 1 >= n {
                assert(rest.len() < 2);
                return None;
            }
            let c = bytes[i + 1];
            let ghost before = out@;
            out.push(c);
            proof {
                assert(rest.skip(2) =~= bytes@.skip(i + 2));
                let tail = unquote_spec(bytes@.skip(i + 2));
                if tail is Some {
                    assert(before + (seq![c] + tail->0) =~= out@ + tail->0);
                }
            }
            i += 2;
        } else {
            let ghost before = out@;
            out.push(b);
            proof {
                assert(rest.drop_first() =~= bytes@.skip(i + 1));
                let tail = unquote_spec(bytes@.skip(i + 1));
                if tail is Some {
                    assert(before + (seq![b] + tail->0) =~= out@ + tail->0);
                }
            }
            i += 1;
        }
    }
    None
}

/// The name between `XDG_` and `_DIR` under which `user-dirs.dirs` records
/// a directory; the font directory is not recorded there.
pub open spec fn key_name(which: UserDir) -> Option<Seq<char>> {
    match which {
        UserDir::Audio => Some(seq!['M', 'U', 'S', 'I', 'C']),
        UserDir::Desktop => Some(seq!['D', 'E', 'S', 'K', 'T', 'O', 'P']),
        UserDir::Document => Some(seq!['D', 'O', 'C', 'U', 'M', 'E', 'N', 'T', 'S']),
        UserDir::Download => Some(seq!['D', 'O', 'W', 'N', 'L', 'O', 'A', 'D']),
        UserDir::Picture => Some(seq!['P', 'I', 'C', 'T', 'U', 'R', 'E', 'S']),
        UserDir::Project => Some(seq!['P', 'R', 'O', 'J', 'E', 'C', 'T', 'S']),
        UserDir::Public => Some(seq!['P', 'U', 'B', 'L', 'I', 'C', 'S', 'H', 'A', 'R', 'E']),
        UserDir::Template => Some(seq!['T', 'E', 'M', 'P', 'L', 'A', 'T', 'E', 'S']),
        UserDir::Video => Some(seq!['V', 'I', 'D', 'E', 'O', 'S']),
        UserDir::Font => None,
    }
}

/// The name between `XDG_` and `_DIR` under which `user-dirs.dirs` records
/// a directory.
pub fn key_for(which: UserDir) -> (r: Option<&'static str>)
    ensures
        match r {
            Some(s) => key_name(which) == Some(s@),
            None => key_name(which) is None,
        },
{
    match which {
        UserDir::Audio => {
            proof {
                reveal_strlit("MUSIC");
            }
            Some("MUSIC")
        },
        UserDir::Desktop => {
            proof {
                reveal_strlit("DESKTOP");
            }
            Some("DESKTOP")
        },
        UserDir::Document => {
            proof {
                reveal_strlit("DOCUMENTS");
            }
            Some("DOCUMENTS")
        },
        UserDir::Download => {
            proof {
                reveal_strlit("DOWNLOAD");
            }
            Some("DOWNLOAD")
        },
        UserDir::Picture => {
            proof {
                reveal_strlit("PICTURES");
            }
            Some("PICTURES")
        },
        UserDir::Project => {
            proof {
                reveal_strlit("PROJECTS");
            }
            Some("PROJECTS")
        },
        UserDir::Public => {
            proof {
                reveal_strlit("PUBLICSHARE");
            }
            Some("PUBLICSHARE")
        },
        UserDir::Template => {
            proof {
                reveal_strlit("TEMPLATES");
            }
            Some("TEMPLATES")
        },
        UserDir::Video => {
            proof {
                reveal_strlit("VIDEOS");
            }
            Some("VIDEOS")
        },
        // Not part of user-dirs.dirs; derived from XDG_DATA_HOME instead.
        UserDir::Font => None,
    }
}

/// The full key `XDG_<name>_DIR`.
pub open spec fn xdg_key(name: Seq<char>) -> Seq<u8> {
    ascii(seq!['X', 'D', 'G', '_'] + name + seq!['_', 'D', 'I', 'R'])
}

/// Whether `key` is the key under which `which` is recorded.
pub open spec fn key_matches(key: Seq<u8>, which: UserDir) -> bool {
    match key_name(which) {
        Some(n) => key == xdg_key(n),
        None => false,
    }
}

/// The first of `ds` recorded under `key`.
pub open spec fn find_dir(key: Seq<u8>, ds: Seq<UserDir>) -> Option<UserDir>
    decreases ds.len(),
{
    if ds.len() == 0 {
        None
    } else if key_matches(key, ds[0]) {
        Some(ds[0])
    } else {
        find_dir(key, ds.drop_first())
    }
}

/// The directory recorded under `key`, if any.
pub open spec fn dir_for_key_spec(key: Seq<u8>) -> Option<UserDir> {
    find_dir(key, UserDir::all_seq())
}

/// Whether `key` is `XDG_<name>_DIR`.
fn is_xdg_key(key: &[u8], name: &str) -> (r: bool)
    requires
        is_ascii_chars(name@),
    ensures
        r == (key@ == xdg_key(name@)),
{
    proof {
        reveal_strlit("XDG_");
        reveal_strlit("_DIR");
    }
    let mut k = ascii_bytes("XDG_");
    let mut n = ascii_bytes(name);
    let mut d = ascii_bytes("_DIR");
    k.append(&mut n);
    k.append(&mut d);
    proof {
        assert(k@ =~= xdg_key(name@));
    }
    bytes_eq(k.as_slice(), key)
}

/// The directory recorded under `key`, if any.
fn dir_for_key(key: &[u8]) -> (r: Option<UserDir>)
    ensures
        r == dir_for_key_spec(key@),
{
    let all = UserDir::all();
    let mut i: usize = 0;
    assert(all@.skip(0) =~= all@);
    while i < all.len()
        invariant
            i <= all@.len(),
            all@ == UserDir::all_seq(),
            dir_for_key_spec(key@) == find_dir(key@, all@.skip(i as int)),
        decreases all@.len() - i,
    {
        let which = all[i];
        assert(all@.skip(i as int)[0] == which);
        match key_for(which) {
            Some(name) => {
                proof {
                    assert(is_ascii_chars(name@)) by {
                        match which {
                            UserDir::Audio => {},
                            UserDir::Desktop => {},
                            UserDir::Document => {},
                            UserDir::Download => {},
                            UserDir::Font => {},
                            UserDir::Picture => {},
                            UserDir::Project => {},
                            UserDir::Public => {},
                            UserDir::Template => {},
                            UserDir::Video => {},
                        }
                    }
                }
                if is_xdg_key(key, name) {
                    return Some(which);
                }
            },
            None => {},
        }
        assert(all@.skip(i as int).drop_first() =~= all@.skip(i + 1));
        i += 1;
    }
    None
}

/// `$HOME/`, the prefix of a home-relative value.
pub open spec fn home_prefix() -> Seq<u8> {
    ascii(seq!['$', 'H', 'O', 'M', 'E', '/'])
}

/// The path a quoted value (opening quote removed) stands for, as
/// `xdg_user_dir_lookup` (and so GTK and Qt) resolves it: after `$HOME/`, the
/// home directory, one `/` and the rest of the value appended as it is;
/// otherwise an absolute path. The `$HOME/` test is made on the raw bytes,
/// before escapes are resolved.
pub open spec fn value_path(raw: Seq<u8>, home: Seq<u8>) -> Option<Seq<u8>> {
    if raw.len() >= 6 && raw.take(6) == home_prefix() {
        match unquote_spec(raw.skip(6)) {
            Some(v) => Some(home + seq![SLASH] + v),
            None => None,
        }
    } else if raw.len() > 0 && raw[0] == SLASH {
        unquote_spec(raw)
    } else {
        None
    }
}

/// The entry one line of `user-dirs.dirs` makes, if it is one: the line
/// trimmed; not a comment; a key before the first `=` that names a
/// directory; a value after it that opens with `"`, is home-relative or
/// absolute, and closes its quote. The entry sets the directory to the
/// resulting path, or disables it (`None`) where that path is the home
/// directory itself.
pub open spec fn parse_line_spec(line: Seq<u8>, home: Seq<u8>) -> Option<(UserDir, Option<Seq<u8>>)> {
    let t = trim_spec(line);
    if t.len() > 0 && t[0] == HASH {
        None
    } else {
        let eq = first_index(t, EQUALS);
        if eq >= t.len() {
            None
        } else {
            match dir_for_key_spec(trim_spec(t.take(eq as int))) {
                None => None,
                Some(which) => {
                    let raw = trim_spec(t.skip(eq + 1 as int));
                    if raw.len() == 0 || raw[0] != QUOTE {
                        None
                    } else {
                        match value_path(raw.drop_first(), home) {
                            None => None,
                            Some(p) => if same_path_spec(p, home) {
                                Some((which, None))
                            } else {
                                Some((which, Some(p)))
                            },
                        }
                    }
                },
            }
        }
    }
}

/// A table with no directory set.
pub open spec fn empty_table() -> Seq<Option<Seq<u8>>> {
    Seq::new(COUNT as nat, |i: int| None::<Seq<u8>>)
}

/// The table after applying `lines` in order; a later entry overrides an
/// earlier one for the same directory, a disabling one included.
pub open spec fn apply_lines(lines: Seq<Seq<u8>>, home: Seq<u8>) -> Seq<Option<Seq<u8>>>
    decreases lines.len(),
{
    if lines.len() == 0 {
        empty_table()
    } else {
        let prev = apply_lines(lines.drop_last(), home);
        match parse_line_spec(lines.last(), home) {
            Some((which, entry)) => prev.update(which.index_of() as int, entry),
            None => prev,
        }
    }
}

/// The directories a `user-dirs.dirs` file sets, indexed by `UserDir::index`.
pub open spec fn parse_spec(contents: Seq<u8>, home: Seq<u8>) -> Seq<Option<Seq<u8>>> {
    apply_lines(split(contents, NEWLINE), home)
}

/// Whether `raw` starts with `$HOME/`.
fn has_home_prefix(raw: &[u8]) -> (r: bool)
    ensures
        r == (raw@.len() >= 6 && raw@.take(6) == home_prefix()),
{
    let r = raw.len() >= 6 && raw[0] == 0x24 && raw[1] == 0x48 && raw[2] == 0x4f && raw[3] == 0x4d
        && raw[4] == 0x45 && raw[5] == 0x2f;
    proof {
        if raw@.len() >= 6 {
            if r {
                assert(raw@.take(6) =~= home_prefix());
            } else if raw@.take(6) == home_prefix() {
                assert(raw@.take(6)[0] == raw@[0]);
                assert(raw@.take(6)[1] == raw@[1]);
                assert(raw@.take(6)[2] == raw@[2]);
                assert(raw@.take(6)[3] == raw@[3]);
                assert(raw@.take(6)[4] == raw@[4]);
                assert(raw@.take(6)[5] == raw@[5]);
            }
        }
    }
    r
}

/// `home`, one `/`, then `value`.
fn under_home(home: &[u8], value: &[u8]) -> (r: Vec<u8>)
    ensures
        r@ == home@ + seq![SLASH] + value@,
{
    let mut r = slice_to_vec(home);
    r.push(SLASH);
    let ghost head = r@;
    let mut i: usize = 0;
    while i < value.len()
        invariant
            i <= value@.len(),
            r@ == head + value@.take(i as int),
        decreases value@.len() - i,
    {
        r.push(value[i]);
        i += 1;
        assert(r@ =~= head + value@.take(i as int));
    }
    assert(value@.take(value@.len() as int) =~= value@);
    r
}

/// The entry one line of `user-dirs.dirs` makes, if it is one.
fn parse_line(line: &[u8], home: &[u8]) -> (r: Option<(UserDir, Option<Vec<u8>>)>)
    ensures
        match r {
            Some((which, p)) => parse_line_spec(line@, home@) == Some((which, opt_vec(p))),
            None => parse_line_spec(line@, home@) is None,
        },
{
    let t = trim(line);
    let n = t.len();
    if n > 0 && t[0] == HASH {
        return None;
    }
    let eq = find_byte(t, 0, n, EQUALS);
    assert(t@.subrange(0, n as int) =~= t@);
    if eq == n {
        return None;
    }
    let key = trim(&t[0..eq]);
    assert(t@.subrange(0, eq as int) =~= t@.take(eq as int));
    let which = match dir_for_key(key) {
        Some(w) => w,
        None => return None,
    };
    let raw = trim(&t[eq + 1..n]);
    assert(t@.subrange(eq + 1, n as int) =~= t@.skip(eq + 1));
    if raw.len() == 0 || raw[0] != QUOTE {
        return None;
    }
    let raw = &raw[1..raw.len()];
    assert(raw@ =~= trim_spec(t@.skip(eq + 1)).drop_first());
    // `\$HOME/x` is a literal path, not a home-relative one: the prefix test
    // runs before escapes are resolved.
    let relative = has_home_prefix(raw);
    let rest = if relative {
        &raw[6..raw.len()]
    } else if raw.len() > 0 && raw[0] == SLASH {
        raw
    } else {
        return None;
    };
    proof {
        if relative {
            assert(rest@ =~= raw@.skip(6));
        }
    }
    let value = match unquote(rest) {
        Some(v) => v,
        None => return None,
    };
    proof {
        lemma_bytes_deep_view(value);
    }
    let p = if relative {
        under_home(home, value.as_slice())
    } else {
        value
    };
    if same_path(p.as_slice(), home) {
        // A directory pointed at the home directory is disabled.
        Some((which, None))
    } else {
        Some((which, Some(p)))
    }
}

/// Parse the body of a `user-dirs.dirs` file into the directories it sets,
/// indexed by `UserDir::index`.
///
/// Takes bytes rather than text: a single byte that is not UTF-8 cannot
/// discard every directory in the file.
pub fn parse(contents: &[u8], home: &[u8]) -> (r: Vec<Option<Vec<u8>>>)
    ensures
        r.deep_view() == parse_spec(contents@, home@),
        r@.len() == COUNT,
{
    let mut out: Vec<Option<Vec<u8>>> = Vec::new();
    let mut k: usize = 0;
    while k < COUNT
        invariant
            k <= COUNT,
            out@.len() == k,
            forall|j: int| 0 <= j < k ==> out@[j] is None,
        decreases COUNT - k,
    {
        out.push(None);
        k += 1;
    }
    assert(out.deep_view() =~= empty_table());
    let len = contents.len();
    let mut start: usize = 0;
    let ghost mut done: Seq<Seq<u8>> = seq![];
    assert(contents@.subrange(0, len as int) =~= contents@);
    loop
        invariant
            start <= len,
            len == contents@.len(),
            split(contents@, NEWLINE) == done + split(
                contents@.subrange(start as int, len as int),
                NEWLINE,
            ),
            out.deep_view() == apply_lines(done, home@),
            out@.len() == COUNT,
        decreases len - start,
    {
        let e = find_byte(contents, start, len, NEWLINE);
        proof {
            crate::path::lemma_split_step(contents@, start as int, e as int, NEWLINE);
        }
        let line = &contents[start..e];
        let ghost prev = done;
        proof {
            done = done.push(line@);
            assert(done.drop_last() =~= prev);
        }
        match parse_line(line, home) {
            Some((which, p)) => {
                let ghost before = out.deep_view();
                proof {
                    lemma_opt_vec_deep_view(p);
                }
                let i = which.index();
                out.set(i, p);
                assert(out.deep_view() =~= before.update(i as int, opt_vec(p)));
            },
            None => {},
        }
        if e == len {
            assert(split(contents@, NEWLINE) =~= done);
            return out;
        }
        assert(split(contents@, NEWLINE) =~= done + split(
            contents@.subrange(e + 1, len as int),
            NEWLINE,
        ));
        start = e + 1;
    }
}

/// An XDG base directory from its environment variable: the value where it
/// is set and absolute; the fallback under the home directory where it is
/// unset, empty or relative (the XDG base-directory rules treat a relative value as
/// invalid).
pub open spec fn base_dir_spec(var: Option<Seq<u8>>, home: Seq<u8>, fallback: Seq<u8>) -> Seq<u8> {
    match var {
        Some(v) => if v.len() > 0 && v[0] == SLASH {
            v
        } else {
            join_spec(home, fallback)
        },
        None => join_spec(home, fallback),
    }
}

/// Resolve an XDG base directory from its environment variable.
pub fn base_dir(var: Option<&[u8]>, home: &[u8], fallback: &[u8]) -> (r: Vec<u8>)
    ensures
        r@ == base_dir_spec(
            match var {
                Some(v) => Some(v@),
                None => None,
            },
            home@,
            fallback@,
        ),
{
    match var {
        Some(v) => {
            if v.len() > 0 && v[0] == SLASH {
                return slice_to_vec(v);
            }
            join(home, fallback)
        },
        None => join(home, fallback),
    }
}

/// `.config`, the fallback of `XDG_CONFIG_HOME`.
pub open spec fn config_fallback() -> Seq<u8> {
    ascii(seq!['.', 'c', 'o', 'n', 'f', 'i', 'g'])
}

/// `.local/share`, the fallback of `XDG_DATA_HOME`.
pub open spec fn data_fallback() -> Seq<u8> {
    ascii(seq!['.', 'l', 'o', 'c', 'a', 'l', '/', 's', 'h', 'a', 'r', 'e'])
}

/// `fonts`, the font directory under the data home.
pub open spec fn fonts_name() -> Seq<u8> {
    ascii(seq!['f', 'o', 'n', 't', 's'])
}

/// `user-dirs.dirs`, the file under the config home.
pub open spec fn user_dirs_name() -> Seq<u8> {
    ascii(
        seq!['u', 's', 'e', 'r', '-', 'd', 'i', 'r', 's', '.', 'd', 'i', 'r', 's'],
    )
}

/// The view of an optional byte slice.
pub open spec fn opt_bytes(o: Option<&[u8]>) -> Option<Seq<u8>> {
    match o {
        Some(v) => Some(v@),
        None => None,
    }
}

/// `${XDG_CONFIG_HOME:-$HOME/.config}`, given the variable's value.
pub fn config_home(var: Option<&[u8]>, home: &[u8]) -> (r: Vec<u8>)
    ensures
        r@ == base_dir_spec(opt_bytes(var), home@, config_fallback()),
{
    proof {
        reveal_strlit(".config");
    }
    let fallback = ascii_bytes(".config");
    base_dir(var, home, fallback.as_slice())
}

/// `${XDG_DATA_HOME:-$HOME/.local/share}`, given the variable's value.
pub fn data_home(var: Option<&[u8]>, home: &[u8]) -> (r: Vec<u8>)
    ensures
        r@ == base_dir_spec(opt_bytes(var), home@, data_fallback()),
{
    proof {
        reveal_strlit(".local/share");
    }
    let fallback = ascii_bytes(".local/share");
    base_dir(var, home, fallback.as_slice())
}

/// The font directory: `fonts` under the data home.
pub open spec fn font_dir_spec(data_var: Option<Seq<u8>>, home: Seq<u8>) -> Seq<u8> {
    join_spec(base_dir_spec(data_var, home, data_fallback()), fonts_name())
}

/// The font directory: `fonts` under the data home, given `XDG_DATA_HOME`.
pub fn font_dir(data_var: Option<&[u8]>, home: &[u8]) -> (r: Vec<u8>)
    ensures
        r@ == font_dir_spec(opt_bytes(data_var), home@),
{
    let base = data_home(data_var, home);
    proof {
        reveal_strlit("fonts");
    }
    let name = ascii_bytes("fonts");
    join(base.as_slice(), name.as_slice())
}

/// Where `user-dirs.dirs` is, given `XDG_CONFIG_HOME`.
pub fn user_dirs_file(config_var: Option<&[u8]>, home: &[u8]) -> (r: Vec<u8>)
    ensures
        r@ == join_spec(base_dir_spec(opt_bytes(config_var), home@, config_fallback()), user_dirs_name()),
{
    let base = config_home(config_var, home);
    proof {
        reveal_strlit("user-dirs.dirs");
    }
    let name = ascii_bytes("user-dirs.dirs");
    join(base.as_slice(), name.as_slice())
}

/// The directories that `user-dirs.dirs` sets, given its bytes.
pub open spec fn file_table(contents: Option<Seq<u8>>, home: Seq<u8>) -> Seq<Option<Seq<u8>>> {
    match contents {
        Some(c) => parse_spec(c, home),
        None => empty_table(),
    }
}

/// The directories that `user-dirs.dirs` sets, given its bytes.
///
/// A missing or unreadable file is not an error: it just means no directory
/// is configured, which is the normal state on a machine where
/// `xdg-user-dirs-update` has never run.
pub fn read_user_dirs_file(contents: Option<&[u8]>, home: &[u8]) -> (r: Vec<Option<Vec<u8>>>)
    ensures
        r.deep_view() == file_table(opt_bytes(contents), home@),
        r@.len() == COUNT,
{
    match contents {
        Some(c) => parse(c, home),
        None => {
            let mut out: Vec<Option<Vec<u8>>> = Vec::new();
            let mut k: usize = 0;
            while k < COUNT
                invariant
                    k <= COUNT,
                    out@.len() == k,
                    forall|j: int| 0 <= j < k ==> out@[j] is None,
                decreases COUNT - k,
            {
                out.push(None);
                k += 1;
            }
            assert(out.deep_view() =~= empty_table());
            out
        },
    }
}

/// The view of an optional byte vector.
pub open spec fn opt_vec(o: Option<Vec<u8>>) -> Option<Seq<u8>> {
    match o {
        Some(v) => Some(v@),
        None => None,
    }
}

/// Where `which` is on an XDG platform.
pub open spec fn resolve_spec(env: crate::Environment, which: UserDir) -> Option<Seq<u8>> {
    match crate::home_spec(opt_vec(env.home)) {
        None => None,
        Some(h) => if which == UserDir::Font {
            Some(font_dir_spec(opt_vec(env.data_home), h))
        } else {
            file_table(opt_vec(env.user_dirs_file), h)[which.index_of() as int]
        },
    }
}

/// Every directory at once on an XDG platform.
pub open spec fn resolve_all_spec(env: crate::Environment) -> Option<Seq<Option<Seq<u8>>>> {
    match crate::home_spec(opt_vec(env.home)) {
        None => None,
        Some(h) => Some(
            file_table(opt_vec(env.user_dirs_file), h).update(
                UserDir::Font.index_of() as int,
                Some(font_dir_spec(opt_vec(env.data_home), h)),
            ),
        ),
    }
}

fn opt_slice(o: &Option<Vec<u8>>) -> (r: Option<&[u8]>)
    ensures
        opt_bytes(r) == opt_vec(*o),
{
    match o {
        Some(v) => Some(v.as_slice()),
        None => None,
    }
}

/// Where `which` is on an XDG platform.
pub fn resolve(env: &crate::Environment, which: UserDir) -> (r: Option<Vec<u8>>)
    ensures
        r.deep_view() == resolve_spec(*env, which),
{
    proof {
        lemma_opt_vec_deep_view(env.home);
    }
    let home = match crate::home(&env.home) {
        Some(h) => h,
        None => return None,
    };
    if which == UserDir::Font {
        let f = font_dir(opt_slice(&env.data_home), home);
        proof {
            lemma_bytes_deep_view(f);
        }
        return Some(f);
    }
    let mut dirs = read_user_dirs_file(opt_slice(&env.user_dirs_file), home);
    let ghost table = dirs.deep_view();
    let r = dirs.swap_remove(which.index());
    assert(r.deep_view() == table[which.index_of() as int]);
    r
}

/// Every directory at once on an XDG platform.
pub fn resolve_all(env: &crate::Environment) -> (r: Option<crate::UserDirs>)
    ensures
        match r {
            Some(d) => resolve_all_spec(*env) == Some(d@),
            None => resolve_all_spec(*env) is None,
        },
{
    proof {
        lemma_opt_vec_deep_view(env.home);
    }
    let home = match crate::home(&env.home) {
        Some(h) => h,
        None => return None,
    };
    let mut dirs = read_user_dirs_file(opt_slice(&env.user_dirs_file), home);
    let f = font_dir(opt_slice(&env.data_home), home);
    proof {
        lemma_bytes_deep_view(f);
    }
    let ghost before = dirs.deep_view();
    dirs.set(UserDir::Font.index(), Some(f));
    assert(dirs.deep_view() =~= before.update(UserDir::Font.index_of() as int, Some(f@)));
    Some(crate::UserDirs::from_table(dirs))
}

pub proof fn lemma_opt_vec_deep_view(o: Option<Vec<u8>>)
    ensures
        o.deep_view() == opt_vec(o),
{
    if let Some(v) = o {
        lemma_bytes_deep_view(v);
    }
}

/// On an XDG platform, `resolve_all` agrees with `resolve` for every
/// directory, and both fail together.
pub proof fn lemma_resolve_all_agrees(env: crate::Environment)
    ensures
        match resolve_all_spec(env) {
            Some(t) => t.len() == COUNT && forall|w: UserDir| #[trigger] t[w.index_of() as int]
                == resolve_spec(env, w),
            None => forall|w: UserDir| #[trigger] resolve_spec(env, w) is None,
        },
{
    if let Some(h) = crate::home_spec(opt_vec(env.home)) {
        lemma_table_len(opt_vec(env.user_dirs_file), h);
        crate::lemma_index_bijection();
    }
}

pub proof fn lemma_apply_lines_len(lines: Seq<Seq<u8>>, home: Seq<u8>)
    ensures
        apply_lines(lines, home).len() == COUNT,
    decreases lines.len(),
{
    if lines.len() > 0 {
        lemma_apply_lines_len(lines.drop_last(), home);
        crate::lemma_index_bijection();
    }
}

pub proof fn lemma_table_len(contents: Option<Seq<u8>>, home: Seq<u8>)
    ensures
        file_table(contents, home).len() == COUNT,
{
    if let Some(c) = contents {
        lemma_apply_lines_len(split(c, NEWLINE), home);
    }
}

/// Whether some line of `lines` is an entry for the directory at index `i`
/// (one that sets it or one that disables it).
pub open spec fn has_entry(lines: Seq<Seq<u8>>, home: Seq<u8>, i: int) -> bool
    decreases lines.len(),
{
    lines.len() > 0 && (match parse_line_spec(lines.last(), home) {
        Some((which, _)) => which.index_of() == i,
        None => false,
    } || has_entry(lines.drop_last(), home, i))
}

/// Whether some line of a `user-dirs.dirs` file is an entry for the
/// directory at index `i`.
pub open spec fn file_has_entry(contents: Seq<u8>, home: Seq<u8>, i: int) -> bool {
    has_entry(split(contents, NEWLINE), home, i)
}

/// Applying two runs of lines: where the later run has an entry for a
/// directory, its last such entry decides; elsewhere the earlier run does.
pub proof fn lemma_apply_lines_concat(la: Seq<Seq<u8>>, lb: Seq<Seq<u8>>, home: Seq<u8>)
    ensures
        forall|i: int|
            0 <= i < COUNT ==> #[trigger] apply_lines(la + lb, home)[i] == if has_entry(lb, home, i) {
                apply_lines(lb, home)[i]
            } else {
                apply_lines(la, home)[i]
            },
    decreases lb.len(),
{
    lemma_apply_lines_len(la + lb, home);
    lemma_apply_lines_len(la, home);
    lemma_apply_lines_len(lb, home);
    crate::lemma_index_bijection();
    if lb.len() == 0 {
        assert(la + lb =~= la);
    } else {
        let lb2 = lb.drop_last();
        lemma_apply_lines_concat(la, lb2, home);
        assert((la + lb).drop_last() =~= la + lb2);
        assert((la + lb).last() == lb.last());
        lemma_apply_lines_len(lb2, home);
        lemma_apply_lines_len(la + lb2, home);
    }
}

/// The last entry for a directory wins, a disabling one included, and lines
/// do not affect each other: parsing two files joined by a newline gives,
/// for each directory the second file has an entry for, what the second file
/// gives, and for every other directory what the first one gives. A
/// malformed or undecodable line therefore costs at most its own entry.
pub proof fn lemma_parse_concat(a: Seq<u8>, b: Seq<u8>, home: Seq<u8>)
    ensures
        parse_spec(a + seq![NEWLINE] + b, home).len() == COUNT,
        forall|i: int|
            0 <= i < COUNT ==> #[trigger] parse_spec(a + seq![NEWLINE] + b, home)[i] == if file_has_entry(
                b,
                home,
                i,
            ) {
                parse_spec(b, home)[i]
            } else {
                parse_spec(a, home)[i]
            },
{
    crate::path::lemma_split_concat(a, b, NEWLINE);
    lemma_apply_lines_concat(split(a, NEWLINE), split(b, NEWLINE), home);
    lemma_apply_lines_len(split(a + seq![NEWLINE] + b, NEWLINE), home);
}

pub proof fn lemma_apply_lines_never_home(lines: Seq<Seq<u8>>, home: Seq<u8>)
    ensures
        forall|i: int|
            0 <= i < apply_lines(lines, home).len() && (#[trigger] apply_lines(lines, home)[i]) is Some
                ==> !same_path_spec(apply_lines(lines, home)[i]->0, home),
    decreases lines.len(),
{
    if lines.len() > 0 {
        let prev = apply_lines(lines.drop_last(), home);
        lemma_apply_lines_len(lines.drop_last(), home);
        crate::lemma_index_bijection();
        lemma_apply_lines_never_home(lines.drop_last(), home);
        assert forall|i: int|
            0 <= i < apply_lines(lines, home).len() && (#[trigger] apply_lines(lines, home)[i]) is Some
                implies !same_path_spec(apply_lines(lines, home)[i]->0, home) by {
            match parse_line_spec(lines.last(), home) {
                Some((which, p)) => {
                    if i != which.index_of() {
                        assert(apply_lines(lines, home)[i] == prev[i]);
                    }
                },
                None => {
                    assert(apply_lines(lines, home)[i] == prev[i]);
                },
            }
        }
    }
}

/// A directory pointed at the home directory is disabled: no entry the
/// parser produces is the home directory itself (compared as paths, so
/// `$HOME/` counts too).
pub proof fn lemma_parse_never_home(contents: Seq<u8>, home: Seq<u8>)
    ensures
        forall|i: int|
            0 <= i < COUNT && (#[trigger] parse_spec(contents, home)[i]) is Some ==> !same_path_spec(
                parse_spec(contents, home)[i]->0,
                home,
            ),
{
    lemma_apply_lines_len(split(contents, NEWLINE), home);
    lemma_apply_lines_never_home(split(contents, NEWLINE), home);
}

pub proof fn lemma_unquote_keeps_first(s: Seq<u8>)
    requires
        s.len() > 0,
        s[0] != QUOTE,
        s[0] != BACKSLASH,
        unquote_spec(s) is Some,
    ensures
        unquote_spec(s)->0.len() > 0,
        unquote_spec(s)->0[0] == s[0],
{
}

pub proof fn lemma_line_absolute(line: Seq<u8>, home: Seq<u8>)
    requires
        home.len() > 0,
        home[0] == SLASH,
        parse_line_spec(line, home) is Some,
    ensures
        match parse_line_spec(line, home) {
            Some((_, Some(p))) => p.len() > 0 && p[0] == SLASH,
            _ => true,
        },
{
    let t = trim_spec(line);
    let eq = first_index(t, EQUALS);
    let raw = trim_spec(t.skip(eq + 1 as int)).drop_first();
    if raw.len() >= 6 && raw.take(6) == home_prefix() {
    } else {
        lemma_unquote_keeps_first(raw);
    }
}

pub proof fn lemma_apply_lines_absolute(lines: Seq<Seq<u8>>, home: Seq<u8>)
    requires
        home.len() > 0,
        home[0] == SLASH,
    ensures
        forall|i: int|
            0 <= i < apply_lines(lines, home).len() && (#[trigger] apply_lines(lines, home)[i]) is Some
                ==> apply_lines(lines, home)[i]->0.len() > 0 && apply_lines(lines, home)[i]->0[0]
                == SLASH,
    decreases lines.len(),
{
    if lines.len() > 0 {
        let prev = apply_lines(lines.drop_last(), home);
        lemma_apply_lines_len(lines.drop_last(), home);
        crate::lemma_index_bijection();
        lemma_apply_lines_absolute(lines.drop_last(), home);
        if parse_line_spec(lines.last(), home) is Some {
            lemma_line_absolute(lines.last(), home);
        }
        assert forall|i: int|
            0 <= i < apply_lines(lines, home).len() && (#[trigger] apply_lines(lines, home)[i]) is Some
                implies apply_lines(lines, home)[i]->0.len() > 0 && apply_lines(lines, home)[i]->0[0]
                == SLASH by {
            match parse_line_spec(lines.last(), home) {
                Some((which, p)) => {
                    if i != which.index_of() {
                        assert(apply_lines(lines, home)[i] == prev[i]);
                    }
                },
                None => {
                    assert(apply_lines(lines, home)[i] == prev[i]);
                },
            }
        }
    }
}

/// With an absolute home directory every parsed directory is absolute: a
/// value is either `$HOME/` and a path, or an absolute path, and nothing else.
pub proof fn lemma_parse_absolute(contents: Seq<u8>, home: Seq<u8>)
    requires
        home.len() > 0,
        home[0] == SLASH,
    ensures
        forall|i: int|
            0 <= i < COUNT && (#[trigger] parse_spec(contents, home)[i]) is Some ==> parse_spec(
                contents,
                home,
            )[i]->0.len() > 0 && parse_spec(contents, home)[i]->0[0] == SLASH,
{
    lemma_apply_lines_len(split(contents, NEWLINE), home);
    lemma_apply_lines_absolute(split(contents, NEWLINE), home);
}

} // verus!
