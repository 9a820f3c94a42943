//! Cross-platform paths to the user's media and personal directories.
//!
//! The directories a *person* keeps files in (Downloads, Documents, Pictures,
//! Music, ...) as opposed to those an application keeps state in.
//!
//! Paths are handled as raw bytes throughout: Unix paths are arbitrary bytes,
//! and on Windows the bytes are the platform's encoded form of the wide string.
//! Everything that touches the machine (environment variables, the
//! `user-dirs.dirs` file, the Windows shell) is read by the caller and handed
//! in as an [`Environment`]; from there on every answer is computed here.
use vstd::prelude::*;

pub mod apple;
pub mod cache;
pub mod laws;
pub mod path;
pub mod unsupported;
pub mod windows;
pub mod xdg;

verus! {

/// Number of [`UserDir`] variants. Every per-directory table is this wide.
pub const COUNT: usize = 10;

/// Which user directory to resolve.
#[derive(Debug, Clone, Copy, PartialEq, Eq, Hash, Structural)]
#[non_exhaustive]
pub enum UserDir {
    /// Music and other audio.
    Audio,
    /// The desktop.
    Desktop,
    /// Documents.
    Document,
    /// Downloads.
    Download,
    /// User-installed fonts.
    Font,
    /// Images.
    Picture,
    /// The user's projects.
    Project,
    /// Files shared with other users of the machine.
    Public,
    /// Document templates.
    Template,
    /// Movies and other video.
    Video,
}

impl UserDir {
    /// Position of this directory in every per-directory table.
    pub open spec fn index_of(self) -> nat {
        match self {
            UserDir::Audio => 0,
            UserDir::Desktop => 1,
            UserDir::Document => 2,
            UserDir::Download => 3,
            UserDir::Font => 4,
            UserDir::Picture => 5,
            UserDir::Project => 6,
            UserDir::Public => 7,
            UserDir::Template => 8,
            UserDir::Video => 9,
        }
    }

    /// Every directory, in table order.
    pub open spec fn all_seq() -> Seq<UserDir> {
        seq![
            UserDir::Audio,
            UserDir::Desktop,
            UserDir::Document,
            UserDir::Download,
            UserDir::Font,
            UserDir::Picture,
            UserDir::Project,
            UserDir::Public,
            UserDir::Template,
            UserDir::Video,
        ]
    }

    /// Position of this directory in every per-directory table.
    pub fn index(self) -> (r: usize)
        ensures
            r == self.index_of(),
            r < COUNT,
    {
        match self {
            UserDir::Audio => 0,
            UserDir::Desktop => 1,
            UserDir::Document => 2,
            UserDir::Download => 3,
            UserDir::Font => 4,
            UserDir::Picture => 5,
            UserDir::Project => 6,
            UserDir::Public => 7,
            UserDir::Template => 8,
            UserDir::Video => 9,
        }
    }

    /// Every directory this crate knows about, in table order.
    pub fn all() -> (r: Vec<UserDir>)
        ensures
            r@ == UserDir::all_seq(),
    {
        let r = vec![
            UserDir::Audio,
            UserDir::Desktop,
            UserDir::Document,
            UserDir::Download,
            UserDir::Font,
            UserDir::Picture,
            UserDir::Project,
            UserDir::Public,
            UserDir::Template,
            UserDir::Video,
        ];
        assert(r@ =~= UserDir::all_seq());
        r
    }
}

/// `index` is a bijection between the directories and `0..COUNT`, and
/// `all` lists each directory at its own index.
pub proof fn lemma_index_bijection()
    ensures
        UserDir::all_seq().len() == COUNT,
        forall|w: UserDir| #[trigger] w.index_of() < COUNT,
        forall|w: UserDir| UserDir::all_seq()[#[trigger] w.index_of() as int] == w,
        forall|i: int| 0 <= i < COUNT ==> (#[trigger] UserDir::all_seq()[i]).index_of() == i,
        forall|a: UserDir, b: UserDir| #[trigger] a.index_of() == #[trigger] b.index_of() ==> a == b,
{
    assert forall|w: UserDir| UserDir::all_seq()[#[trigger] w.index_of() as int] == w by {
        match w {
            UserDir::Audio => {},
            UserDir::Desktop => {},
            UserDir::Document => {},
            UserDir::Download => {},
            UserDir::Font => {},
            UserDir::Picture => {},
            UserDir::Project => {},
            UserDir::Public => {},
            UserDir::Template => {},
            UserDir::Video => {},
        }
    }
    assert forall|i: int| 0 <= i < COUNT implies (#[trigger] UserDir::all_seq()[i]).index_of() == i by {
        if i == 0 {} else if i == 1 {} else if i == 2 {} else if i == 3 {} else if i == 4 {}
        else if i == 5 {} else if i == 6 {} else if i == 7 {} else if i == 8 {} else {}
    }
    assert forall|a: UserDir, b: UserDir| #[trigger] a.index_of() == #[trigger] b.index_of() implies a == b by {
        assert(UserDir::all_seq()[a.index_of() as int] == a);
        assert(UserDir::all_seq()[b.index_of() as int] == b);
    }
}

/// The conventions that decide where the directories are.
#[derive(Debug, Clone, Copy, PartialEq, Eq, Hash, Structural)]
pub enum Platform {
    /// Linux, BSD and other XDG platforms: `user-dirs.dirs`.
    Xdg,
    /// macOS and iOS: fixed places under the home directory.
    Apple,
    /// Windows: the shell's known folders.
    Windows,
    /// Anything else: no user directories at all.
    Unsupported,
}

/// What the machine reports, read by the caller and handed in as plain bytes.
pub struct Environment {
    /// The conventions of the running platform.
    pub platform: Platform,
    /// The home directory, as `std::env::home_dir` reports it.
    pub home: Option<Vec<u8>>,
    /// The value of `XDG_DATA_HOME`, if set.
    pub data_home: Option<Vec<u8>>,
    /// The bytes of `user-dirs.dirs`, or `None` where it could not be read.
    pub user_dirs_file: Option<Vec<u8>>,
    /// For each `windows::KnownFolder`, at its index, the path the shell
    /// reported for it, or `None` where the lookup failed.
    pub known_folders: Vec<Option<Vec<u8>>>,
}

/// The home directory: `None` where it is unknown or empty.
pub open spec fn home_spec(raw: Option<Seq<u8>>) -> Option<Seq<u8>> {
    match raw {
        Some(h) => if h.len() > 0 {
            Some(h)
        } else {
            None
        },
        None => None,
    }
}

/// The home directory: `None` where it is unknown or empty.
pub fn home(raw: &Option<Vec<u8>>) -> (r: Option<&[u8]>)
    ensures
        match r {
            Some(h) => home_spec(raw.deep_view()) == Some(h@),
            None => home_spec(raw.deep_view()) is None,
        },
{
    match raw {
        Some(h) => {
            proof {
                crate::path::lemma_bytes_deep_view(*h);
            }
            if h.len() > 0 {
                Some(h.as_slice())
            } else {
                None
            }
        },
        None => None,
    }
}

/// All user directories, resolved once.
///
/// Deliberately not `Default`: an all-`None` `UserDirs` is indistinguishable
/// from a successfully resolved one at the type level.
#[derive(Debug, Clone)]
pub struct UserDirs {
    dirs: Vec<Option<Vec<u8>>>,
}

impl View for UserDirs {
    type V = Seq<Option<Seq<u8>>>;

    /// The path of each directory, at its index.
    closed spec fn view(&self) -> Seq<Option<Seq<u8>>> {
        Seq::new(
            COUNT as nat,
            |i: int|
                if i < self.dirs@.len() {
                    self.dirs.deep_view()[i]
                } else {
                    None
                },
        )
    }
}

/// The entry of `which` in a table, as a borrowed slice.
pub open spec fn entry_is(r: Option<&[u8]>, table: Seq<Option<Seq<u8>>>, which: UserDir) -> bool {
    match r {
        Some(p) => table[which.index_of() as int] == Some(p@),
        None => table[which.index_of() as int] is None,
    }
}

impl UserDirs {
    /// A `UserDirs` holding `dirs`, indexed by `UserDir::index`.
    pub(crate) fn from_table(dirs: Vec<Option<Vec<u8>>>) -> (r: UserDirs)
        requires
            dirs@.len() == COUNT,
        ensures
            r@ == dirs.deep_view(),
            r@.len() == COUNT,
    {
        let r = UserDirs { dirs };
        assert(r@ =~= r.dirs.deep_view());
        r
    }

    /// Resolve every user directory.
    ///
    /// `None` where the platform has no user directories at all, or where
    /// the home directory cannot be determined on a platform that needs it.
    /// Individual entries may still be `None` on platforms lacking them.
    pub fn new(env: &Environment) -> (r: Option<UserDirs>)
        ensures
            match r {
                Some(d) => resolve_all_spec(*env) == Some(d@),
                None => resolve_all_spec(*env) is None,
            },
    {
        match env.platform {
            Platform::Xdg => crate::xdg::resolve_all(env),
            Platform::Apple => crate::apple::resolve_all(env),
            Platform::Windows => crate::windows::resolve_all(env),
            Platform::Unsupported => crate::unsupported::resolve_all(env),
        }
    }

    /// Path to one user directory, or `None` if this platform lacks it.
    pub fn get(&self, which: UserDir) -> (r: Option<&[u8]>)
        ensures
            entry_is(r, self@, which),
    {
        let i = which.index();
        if i >= self.dirs.len() {
            return None;
        }
        match &self.dirs[i] {
            Some(p) => {
                proof {
                    crate::path::lemma_bytes_deep_view(*p);
                }
                Some(p.as_slice())
            },
            None => None,
        }
    }

    /// Path to the user's audio directory.
    pub fn audio_dir(&self) -> (r: Option<&[u8]>)
        ensures
            entry_is(r, self@, UserDir::Audio),
    {
        self.get(UserDir::Audio)
    }

    /// Path to the user's desktop directory.
    pub fn desktop_dir(&self) -> (r: Option<&[u8]>)
        ensures
            entry_is(r, self@, UserDir::Desktop),
    {
        self.get(UserDir::Desktop)
    }

    /// Path to the user's document directory.
    pub fn document_dir(&self) -> (r: Option<&[u8]>)
        ensures
            entry_is(r, self@, UserDir::Document),
    {
        self.get(UserDir::Document)
    }

    /// Path to the user's download directory.
    pub fn download_dir(&self) -> (r: Option<&[u8]>)
        ensures
            entry_is(r, self@, UserDir::Download),
    {
        self.get(UserDir::Download)
    }

    /// Path to the user's font directory.
    ///
    /// On Windows this is `%LOCALAPPDATA%\Microsoft\Windows\Fonts`, where a
    /// non-elevated font install writes; deliberately not the machine-wide
    /// `FOLDERID_Fonts`.
    pub fn font_dir(&self) -> (r: Option<&[u8]>)
        ensures
            entry_is(r, self@, UserDir::Font),
    {
        self.get(UserDir::Font)
    }

    /// Path to the user's picture directory.
    pub fn picture_dir(&self) -> (r: Option<&[u8]>)
        ensures
            entry_is(r, self@, UserDir::Picture),
    {
        self.get(UserDir::Picture)
    }

    /// Path to the user's projects directory (XDG platforms only).
    pub fn project_dir(&self) -> (r: Option<&[u8]>)
        ensures
            entry_is(r, self@, UserDir::Project),
    {
        self.get(UserDir::Project)
    }

    /// Path to the public share directory.
    pub fn public_dir(&self) -> (r: Option<&[u8]>)
        ensures
            entry_is(r, self@, UserDir::Public),
    {
        self.get(UserDir::Public)
    }

    /// Path to the user's template directory (none on macOS).
    pub fn template_dir(&self) -> (r: Option<&[u8]>)
        ensures
            entry_is(r, self@, UserDir::Template),
    {
        self.get(UserDir::Template)
    }

    /// Path to the user's video directory.
    pub fn video_dir(&self) -> (r: Option<&[u8]>)
        ensures
            entry_is(r, self@, UserDir::Video),
    {
        self.get(UserDir::Video)
    }
}

/// Where `which` is on the platform that `env` describes.
pub open spec fn resolve_spec(env: Environment, which: UserDir) -> Option<Seq<u8>> {
    match env.platform {
        Platform::Xdg => crate::xdg::resolve_spec(env, which),
        Platform::Apple => crate::apple::resolve_spec(env, which),
        Platform::Windows => crate::windows::resolve_spec(env, which),
        Platform::Unsupported => None,
    }
}

/// Every directory at once on the platform that `env` describes.
pub open spec fn resolve_all_spec(env: Environment) -> Option<Seq<Option<Seq<u8>>>> {
    match env.platform {
        Platform::Xdg => crate::xdg::resolve_all_spec(env),
        Platform::Apple => crate::apple::resolve_all_spec(env),
        Platform::Windows => crate::windows::resolve_all_spec(env),
        Platform::Unsupported => None,
    }
}

/// Path to one user directory, or `None` where the platform has no such
/// concept or the home directory it needs cannot be determined. A returned
/// path is not guaranteed to exist on disk.
pub fn resolve(env: &Environment, which: UserDir) -> (r: Option<Vec<u8>>)
    ensures
        r.deep_view() == resolve_spec(*env, which),
{
    match env.platform {
        Platform::Xdg => crate::xdg::resolve(env, which),
        Platform::Apple => crate::apple::resolve(env, which),
        Platform::Windows => crate::windows::resolve(env, which),
        Platform::Unsupported => crate::unsupported::resolve(env, which),
    }
}

/// Resolving everything at once agrees with resolving each directory on its
/// own: where `UserDirs::new` succeeds each entry is what `resolve` gives,
/// and where it fails `resolve` gives nothing either.
pub proof fn lemma_new_agrees_with_resolve(env: Environment)
    ensures
        match resolve_all_spec(env) {
            Some(t) => t.len() == COUNT && forall|w: UserDir| #[trigger] t[w.index_of() as int]
                == resolve_spec(env, w),
            None => forall|w: UserDir| #[trigger] resolve_spec(env, w) is None,
        },
{
    match env.platform {
        Platform::Xdg => crate::xdg::lemma_resolve_all_agrees(env),
        Platform::Apple => crate::apple::lemma_resolve_all_agrees(env),
        Platform::Windows => crate::windows::lemma_resolve_all_agrees(env),
        Platform::Unsupported => {},
    }
}

/// `None` where the platform has no such concept or lacks what it needs:
/// an unsupported platform has no directories at all; macOS has no template
/// and no projects directory; Windows has no projects directory; and on the
/// platforms that place directories relative to the home directory nothing
/// resolves without one.
pub proof fn lemma_absent_directories(env: Environment, which: UserDir)
    ensures
        env.platform == Platform::Unsupported ==> resolve_spec(env, which) is None
            && resolve_all_spec(env) is None,
        env.platform == Platform::Apple && (which == UserDir::Template || which == UserDir::Project)
            ==> resolve_spec(env, which) is None,
        env.platform == Platform::Windows && which == UserDir::Project ==> resolve_spec(
            env,
            which,
        ) is None,
        (env.platform == Platform::Xdg || env.platform == Platform::Apple) && home_spec(
            crate::xdg::opt_vec(env.home),
        ) is None ==> resolve_spec(env, which) is None && resolve_all_spec(env) is None,
{
}

} // verus!
