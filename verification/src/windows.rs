//! Windows.
//!
//! The directories are the shell's known folders, which are relocatable, so
//! each is looked up rather than assumed under the profile directory. The
//! lookups themselves (`SHGetKnownFolderPath` with `KF_FLAG_DONT_VERIFY`, so
//! that a folder that does not exist yet still yields its path) are made by
//! the caller and handed in through `Environment::known_folders`.
use vstd::prelude::*;
use vstd::slice::slice_to_vec;
use vstd::utf8::is_ascii_chars;
use crate::path::{lemma_bytes_deep_view, SLASH};
use crate::xdg::ascii;
use crate::{Environment, UserDir, UserDirs, COUNT};

verus! {

/// Number of known folders this crate consults.
pub const KNOWN_FOLDERS: usize = 9;

/// `\`, the Windows path separator.
pub const BACKSLASH: u8 = 0x5c;

/// `:`, after a drive letter.
pub const COLON: u8 = 0x3a;

/// A known folder of the Windows shell.
#[derive(Debug, Clone, Copy, PartialEq, Eq, Hash, Structural)]
pub enum KnownFolder {
    /// `FOLDERID_Music`.
    Music,
    /// `FOLDERID_Desktop`.
    Desktop,
    /// `FOLDERID_Documents`.
    Documents,
    /// `FOLDERID_Downloads`.
    Downloads,
    /// `FOLDERID_Pictures`.
    Pictures,
    /// `FOLDERID_Public`, machine-wide: `%PUBLIC%`, shared by every account.
    Public,
    /// `FOLDERID_Templates`.
    Templates,
    /// `FOLDERID_Videos`.
    Videos,
    /// `FOLDERID_LocalAppData`.
    LocalAppData,
}

impl KnownFolder {
    /// Position of this folder in `Environment::known_folders`.
    pub open spec fn index_of(self) -> nat {
        match self {
            KnownFolder::Music => 0,
            KnownFolder::Desktop => 1,
            KnownFolder::Documents => 2,
            KnownFolder::Downloads => 3,
            KnownFolder::Pictures => 4,
            KnownFolder::Public => 5,
            KnownFolder::Templates => 6,
            KnownFolder::Videos => 7,
            KnownFolder::LocalAppData => 8,
        }
    }

    /// Position of this folder in `Environment::known_folders`.
    pub fn index(self) -> (r: usize)
        ensures
            r == self.index_of(),
            r < KNOWN_FOLDERS,
    {
        match self {
            KnownFolder::Music => 0,
            KnownFolder::Desktop => 1,
            KnownFolder::Documents => 2,
            KnownFolder::Downloads => 3,
            KnownFolder::Pictures => 4,
            KnownFolder::Public => 5,
            KnownFolder::Templates => 6,
            KnownFolder::Videos => 7,
            KnownFolder::LocalAppData => 8,
        }
    }

    /// Every known folder, in index order.
    pub fn all() -> (r: Vec<KnownFolder>)
        ensures
            r@.len() == KNOWN_FOLDERS,
            forall|i: int| 0 <= i < KNOWN_FOLDERS ==> (#[trigger] r@[i]).index_of() == i,
    {
        vec![
            KnownFolder::Music,
            KnownFolder::Desktop,
            KnownFolder::Documents,
            KnownFolder::Downloads,
            KnownFolder::Pictures,
            KnownFolder::Public,
            KnownFolder::Templates,
            KnownFolder::Videos,
            KnownFolder::LocalAppData,
        ]
    }
}

/// The known folder behind each directory, and the path appended beneath it.
///
/// The font directory is `%LOCALAPPDATA%\Microsoft\Windows\Fonts`, where a
/// per-user font install writes; deliberately not `FOLDERID_Fonts`, the
/// machine-wide store. Windows has no projects folder.
pub open spec fn folder_spec(which: UserDir) -> Option<(KnownFolder, Seq<Seq<u8>>)> {
    match which {
        UserDir::Audio => Some((KnownFolder::Music, seq![])),
        UserDir::Desktop => Some((KnownFolder::Desktop, seq![])),
        UserDir::Document => Some((KnownFolder::Documents, seq![])),
        UserDir::Download => Some((KnownFolder::Downloads, seq![])),
        UserDir::Picture => Some((KnownFolder::Pictures, seq![])),
        UserDir::Public => Some((KnownFolder::Public, seq![])),
        UserDir::Template => Some((KnownFolder::Templates, seq![])),
        UserDir::Video => Some((KnownFolder::Videos, seq![])),
        UserDir::Font => Some(
            (
                KnownFolder::LocalAppData,
                seq![
                    ascii(seq!['M', 'i', 'c', 'r', 'o', 's', 'o', 'f', 't']),
                    ascii(seq!['W', 'i', 'n', 'd', 'o', 'w', 's']),
                    ascii(seq!['F', 'o', 'n', 't', 's']),
                ],
            ),
        ),
        UserDir::Project => None,
    }
}

/// The known folder behind `which`, and the path appended beneath it.
pub fn folder(which: UserDir) -> (r: Option<(KnownFolder, Vec<Vec<u8>>)>)
    ensures
        match r {
            Some((k, s)) => folder_spec(which) == Some((k, s.deep_view())),
            None => folder_spec(which) is None,
        },
{
    let k = match which {
        UserDir::Audio => KnownFolder::Music,
        UserDir::Desktop => KnownFolder::Desktop,
        UserDir::Document => KnownFolder::Documents,
        UserDir::Download => KnownFolder::Downloads,
        UserDir::Picture => KnownFolder::Pictures,
        UserDir::Public => KnownFolder::Public,
        UserDir::Template => KnownFolder::Templates,
        UserDir::Video => KnownFolder::Videos,
        UserDir::Font => {
            proof {
                reveal_strlit("Microsoft");
                reveal_strlit("Windows");
                reveal_strlit("Fonts");
            }
            let a = crate::xdg::ascii_bytes("Microsoft");
            let b = crate::xdg::ascii_bytes("Windows");
            let c = crate::xdg::ascii_bytes("Fonts");
            proof {
                lemma_bytes_deep_view(a);
                lemma_bytes_deep_view(b);
                lemma_bytes_deep_view(c);
            }
            assert(a@ =~= ascii(seq!['M', 'i', 'c', 'r', 'o', 's', 'o', 'f', 't']));
            assert(b@ =~= ascii(seq!['W', 'i', 'n', 'd', 'o', 'w', 's']));
            assert(c@ =~= ascii(seq!['F', 'o', 'n', 't', 's']));
            let mut s: Vec<Vec<u8>> = Vec::new();
            s.push(a);
            s.push(b);
            s.push(c);
            assert(s.deep_view() =~= seq![
                ascii(seq!['M', 'i', 'c', 'r', 'o', 's', 'o', 'f', 't']),
                ascii(seq!['W', 'i', 'n', 'd', 'o', 'w', 's']),
                ascii(seq!['F', 'o', 'n', 't', 's']),
            ]);
            return Some((KnownFolder::LocalAppData, s));
        },
        UserDir::Project => return None,
    };
    let s: Vec<Vec<u8>> = Vec::new();
    assert(s.deep_view() =~= seq![]);
    Some((k, s))
}

/// What the shell reported for `k`: `None` where the lookup failed or gave
/// an empty path.
pub open spec fn known_folder_spec(env: Environment, k: KnownFolder) -> Option<Seq<u8>> {
    if k.index_of() < env.known_folders@.len() {
        match env.known_folders@[k.index_of() as int] {
            Some(v) => if v@.len() > 0 {
                Some(v@)
            } else {
                None
            },
            None => None,
        }
    } else {
        None
    }
}

/// What the shell reported for `k`.
pub fn known_folder(env: &Environment, k: KnownFolder) -> (r: Option<Vec<u8>>)
    ensures
        r.deep_view() == known_folder_spec(*env, k),
{
    let i = k.index();
    if i >= env.known_folders.len() {
        return None;
    }
    match &env.known_folders[i] {
        Some(v) => {
            if v.len() > 0 {
                let p = slice_to_vec(v.as_slice());
                proof {
                    lemma_bytes_deep_view(p);
                }
                Some(p)
            } else {
                None
            }
        },
        None => None,
    }
}

/// A Windows separator, `\` or `/`.
pub open spec fn is_sep(b: u8) -> bool {
    b == BACKSLASH || b == SLASH
}

/// A bare drive, such as `C:`, after which no separator is inserted.
pub open spec fn is_bare_drive(p: Seq<u8>) -> bool {
    p.len() == 2 && p[1] == COLON && ((0x41 <= p[0] && p[0] <= 0x5a) || (0x61 <= p[0]
        && p[0] <= 0x7a))
}

/// `PathBuf::push` on Windows of a plain relative name (no prefix, no root):
/// a `\` goes between unless the base is empty, already ends in a separator,
/// or is a bare drive.
pub open spec fn push_spec(base: Seq<u8>, name: Seq<u8>) -> Seq<u8> {
    if base.len() > 0 && !is_sep(base.last()) && !is_bare_drive(base) {
        base + seq![BACKSLASH] + name
    } else {
        base + name
    }
}

/// `base` extended by each of `names` in turn.
pub open spec fn extend_spec(base: Seq<u8>, names: Seq<Seq<u8>>) -> Seq<u8>
    decreases names.len(),
{
    if names.len() == 0 {
        base
    } else {
        extend_spec(push_spec(base, names[0]), names.drop_first())
    }
}

/// `PathBuf::push` on Windows of a plain relative name.
fn push_name(path: &mut Vec<u8>, name: &[u8])
    ensures
        final(path)@ == push_spec(old(path)@, name@),
{
    let n = path.len();
    if n > 0 && path[n - 1] != BACKSLASH && path[n - 1] != SLASH && !(n == 2 && path[1] == COLON
        && ((0x41 <= path[0] && path[0] <= 0x5a) || (0x61 <= path[0] && path[0] <= 0x7a))) {
        path.push(BACKSLASH);
    }
    let ghost head = path@;
    let mut i: usize = 0;
    while i < name.len()
        invariant
            i <= name@.len(),
            path@ == head + name@.take(i as int),
        decreases name@.len() - i,
    {
        path.push(name[i]);
        i += 1;
        assert(path@ =~= head + name@.take(i as int));
    }
    assert(name@.take(name@.len() as int) =~= name@);
    assert(path@ =~= push_spec(old(path)@, name@));
}

/// Where `which` is on Windows: its known folder, with the names beneath it
/// appended.
pub open spec fn resolve_spec(env: Environment, which: UserDir) -> Option<Seq<u8>> {
    match folder_spec(which) {
        None => None,
        Some((k, names)) => match known_folder_spec(env, k) {
            None => None,
            Some(p) => Some(extend_spec(p, names)),
        },
    }
}

/// Every directory at once on Windows: `None` when the shell gave none of
/// them, mirroring the other platforms where `None` means nothing at all.
pub open spec fn resolve_all_spec(env: Environment) -> Option<Seq<Option<Seq<u8>>>> {
    let t = Seq::new(COUNT as nat, |i: int| resolve_spec(env, UserDir::all_seq()[i]));
    if exists|i: int| 0 <= i < COUNT && (#[trigger] t[i]) is Some {
        Some(t)
    } else {
        None
    }
}

/// Where `which` is on Windows.
pub fn resolve(env: &Environment, which: UserDir) -> (r: Option<Vec<u8>>)
    ensures
        r.deep_view() == resolve_spec(*env, which),
{
    let (k, names) = match folder(which) {
        Some(f) => f,
        None => return None,
    };
    let mut path = match known_folder(env, k) {
        Some(p) => p,
        None => return None,
    };
    proof {
        lemma_bytes_deep_view(path);
    }
    let ghost all_names = names.deep_view();
    let ghost start = path@;
    let mut i: usize = 0;
    assert(all_names.skip(0) =~= all_names);
    while i < names.len()
        invariant
            i <= names@.len(),
            all_names == names.deep_view(),
            extend_spec(start, all_names) == extend_spec(path@, all_names.skip(i as int)),
        decreases names@.len() - i,
    {
        proof {
            lemma_bytes_deep_view(names@[i as int]);
            assert(all_names.skip(i as int)[0] == names@[i as int]@);
            assert(all_names.skip(i as int).drop_first() =~= all_names.skip(i + 1));
        }
        push_name(&mut path, names[i].as_slice());
        i += 1;
    }
    assert(all_names.skip(i as int) =~= seq![]);
    proof {
        lemma_bytes_deep_view(path);
    }
    Some(path)
}

/// Every directory at once on Windows.
pub fn resolve_all(env: &Environment) -> (r: Option<UserDirs>)
    ensures
        match r {
            Some(d) => resolve_all_spec(*env) == Some(d@),
            None => resolve_all_spec(*env) is None,
        },
{
    let all = UserDir::all();
    let mut dirs: Vec<Option<Vec<u8>>> = Vec::new();
    let mut any = false;
    let mut i: usize = 0;
    while i < all.len()
        invariant
            i <= all@.len(),
            all@ == UserDir::all_seq(),
            dirs.deep_view() =~= Seq::new(
                i as nat,
                |j: int| resolve_spec(*env, UserDir::all_seq()[j]),
            ),
            any == exists|j: int| 0 <= j < i && (#[trigger] dirs.deep_view()[j]) is Some,
        decreases all@.len() - i,
    {
        let p = resolve(env, all[i]);
        let found = p.is_some();
        let ghost before = dirs.deep_view();
        dirs.push(p);
        assert(dirs.deep_view() =~= before.push(resolve_spec(*env, UserDir::all_seq()[i as int])));
        proof {
            if any {
                let j = choose|j: int| 0 <= j < i && (#[trigger] before[j]) is Some;
                assert(dirs.deep_view()[j] == before[j]);
            }
            if found {
                assert(dirs.deep_view()[i as int] is Some);
            }
            if !any && !found {
                assert forall|j: int| 0 <= j < i + 1 implies !(#[trigger] dirs.deep_view()[j] is Some) by {
                    if j < i {
                        assert(dirs.deep_view()[j] == before[j]);
                    }
                }
            }
        }
        any = any || found;
        i += 1;
    }
    let ghost t = Seq::new(COUNT as nat, |i: int| resolve_spec(*env, UserDir::all_seq()[i]));
    assert(dirs.deep_view() =~= t);
    if any {
        Some(UserDirs::from_table(dirs))
    } else {
        None
    }
}

/// On Windows, `resolve_all` agrees with `resolve` for every directory, and
/// both fail together.
pub proof fn lemma_resolve_all_agrees(env: Environment)
    ensures
        match resolve_all_spec(env) {
            Some(t) => t.len() == COUNT && forall|w: UserDir| #[trigger] t[w.index_of() as int]
                == resolve_spec(env, w),
            None => forall|w: UserDir| #[trigger] resolve_spec(env, w) is None,
        },
{
    crate::lemma_index_bijection();
    let t = Seq::new(COUNT as nat, |i: int| resolve_spec(env, UserDir::all_seq()[i]));
    if resolve_all_spec(env) is None {
        assert forall|w: UserDir| #[trigger] resolve_spec(env, w) is None by {
            assert(t[w.index_of() as int] == resolve_spec(env, w));
        }
    }
}

pub proof fn lemma_extend_keeps_prefix(base: Seq<u8>, names: Seq<Seq<u8>>)
    ensures
        extend_spec(base, names).len() >= base.len(),
        extend_spec(base, names).subrange(0, base.len() as int) == base,
    decreases names.len(),
{
    if names.len() > 0 {
        let next = push_spec(base, names[0]);
        assert(next.subrange(0, base.len() as int) =~= base);
        lemma_extend_keeps_prefix(next, names.drop_first());
        let e = extend_spec(base, names);
        assert(e.subrange(0, base.len() as int) =~= e.subrange(0, next.len() as int).subrange(
            0,
            base.len() as int,
        ));
    }
}

/// On Windows every directory lies within the known folder behind it: its
/// path starts with what the shell reported for that folder (so the font
/// directory lies under Local AppData).
pub proof fn lemma_within_known_folder(env: Environment, which: UserDir)
    requires
        resolve_spec(env, which) is Some,
    ensures
        match folder_spec(which) {
            Some((k, _)) => {
                let base = known_folder_spec(env, k)->0;
                let p = resolve_spec(env, which)->0;
                &&& known_folder_spec(env, k) is Some
                &&& p.len() >= base.len()
                &&& p.subrange(0, base.len() as int) == base
            },
            None => false,
        },
{
    match folder_spec(which) {
        Some((k, names)) => {
            lemma_extend_keeps_prefix(known_folder_spec(env, k)->0, names);
        },
        None => {},
    }
}

} // verus!
