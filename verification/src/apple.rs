//! macOS and iOS.
//!
//! Apple's Standard Directory guidelines put every one of these at a fixed
//! place under the home directory, so no system call is needed.
use vstd::prelude::*;
use vstd::utf8::is_ascii_chars;
use crate::path::{join, join_spec, lemma_bytes_deep_view, SLASH};
use crate::xdg::{ascii, opt_vec};
use crate::{home, home_spec, Environment, UserDir, UserDirs, COUNT};

verus! {

/// Where under the home directory `which` lives; macOS has neither a
/// per-user template nor a projects directory.
pub open spec fn suffix_name(which: UserDir) -> Option<Seq<char>> {
    match which {
        UserDir::Audio => Some(seq!['M', 'u', 's', 'i', 'c']),
        UserDir::Desktop => Some(seq!['D', 'e', 's', 'k', 't', 'o', 'p']),
        UserDir::Document => Some(seq!['D', 'o', 'c', 'u', 'm', 'e', 'n', 't', 's']),
        UserDir::Download => Some(seq!['D', 'o', 'w', 'n', 'l', 'o', 'a', 'd', 's']),
        UserDir::Font => Some(
            seq!['L', 'i', 'b', 'r', 'a', 'r', 'y', '/', 'F', 'o', 'n', 't', 's'],
        ),
        UserDir::Picture => Some(seq!['P', 'i', 'c', 't', 'u', 'r', 'e', 's']),
        UserDir::Public => Some(seq!['P', 'u', 'b', 'l', 'i', 'c']),
        UserDir::Video => Some(seq!['M', 'o', 'v', 'i', 'e', 's']),
        UserDir::Template => None,
        UserDir::Project => None,
    }
}

/// Where under the home directory `which` lives.
pub fn suffix(which: UserDir) -> (r: Option<&'static str>)
    ensures
        match r {
            Some(s) => suffix_name(which) == Some(s@),
            None => suffix_name(which) is None,
        },
{
    match which {
        UserDir::Audio => {
            proof {
                reveal_strlit("Music");
            }
            Some("Music")
        },
        UserDir::Desktop => {
            proof {
                reveal_strlit("Desktop");
            }
            Some("Desktop")
        },
        UserDir::Document => {
            proof {
                reveal_strlit("Documents");
            }
            Some("Documents")
        },
        UserDir::Download => {
            proof {
                reveal_strlit("Downloads");
            }
            Some("Downloads")
        },
        UserDir::Font => {
            proof {
                reveal_strlit("Library/Fonts");
            }
            Some("Library/Fonts")
        },
        UserDir::Picture => {
            proof {
                reveal_strlit("Pictures");
            }
            Some("Pictures")
        },
        UserDir::Public => {
            proof {
                reveal_strlit("Public");
            }
            Some("Public")
        },
        UserDir::Video => {
            proof {
                reveal_strlit("Movies");
            }
            Some("Movies")
        },
        UserDir::Template | UserDir::Project => None,
    }
}

/// Where `which` is on macOS.
pub open spec fn resolve_spec(env: Environment, which: UserDir) -> Option<Seq<u8>> {
    match home_spec(opt_vec(env.home)) {
        None => None,
        Some(h) => match suffix_name(which) {
            None => None,
            Some(s) => Some(join_spec(h, ascii(s))),
        },
    }
}

/// Every directory at once on macOS.
pub open spec fn resolve_all_spec(env: Environment) -> Option<Seq<Option<Seq<u8>>>> {
    match home_spec(opt_vec(env.home)) {
        None => None,
        Some(h) => Some(
            Seq::new(COUNT as nat, |i: int| resolve_spec(env, UserDir::all_seq()[i])),
        ),
    }
}

/// `which` under `home`.
fn under_home(home: &[u8], which: UserDir) -> (r: Option<Vec<u8>>)
    ensures
        r.deep_view() == match suffix_name(which) {
            None => None,
            Some(s) => Some(join_spec(home@, ascii(s))),
        },
{
    match suffix(which) {
        Some(s) => {
            proof {
                assert(is_ascii_chars(s@)) by {
                    match which {
                        UserDir::Audio => {},
                        UserDir::Desktop => {},
                        UserDir::Document => {},
                        UserDir::Download => {},
                        UserDir::Font => {},
                        UserDir::Picture => {},
                        UserDir::Project => {},
                        UserDir::Public => {},
                        UserDir::Template => {},
                        UserDir::Video => {},
                    }
                }
            }
            let name = crate::xdg::ascii_bytes(s);
            let p = join(home, name.as_slice());
            proof {
                lemma_bytes_deep_view(p);
            }
            Some(p)
        },
        None => None,
    }
}

/// Where `which` is on macOS: `None` without a home directory or where
/// macOS has no such directory.
pub fn resolve(env: &Environment, which: UserDir) -> (r: Option<Vec<u8>>)
    ensures
        r.deep_view() == resolve_spec(*env, which),
{
    proof {
        crate::xdg::lemma_opt_vec_deep_view(env.home);
    }
    match home(&env.home) {
        Some(h) => under_home(h, which),
        None => None,
    }
}

/// Every directory at once on macOS: `None` only without a home directory.
pub fn resolve_all(env: &Environment) -> (r: Option<UserDirs>)
    ensures
        match r {
            Some(d) => resolve_all_spec(*env) == Some(d@),
            None => resolve_all_spec(*env) is None,
        },
{
    proof {
        crate::xdg::lemma_opt_vec_deep_view(env.home);
    }
    let h = match home(&env.home) {
        Some(h) => h,
        None => return None,
    };
    let all = UserDir::all();
    let mut dirs: Vec<Option<Vec<u8>>> = Vec::new();
    let mut i: usize = 0;
    while i < all.len()
        invariant
            i <= all@.len(),
            all@ == UserDir::all_seq(),
            home_spec(opt_vec(env.home)) == Some(h@),
            dirs.deep_view() =~= Seq::new(
                i as nat,
                |j: int| resolve_spec(*env, UserDir::all_seq()[j]),
            ),
        decreases all@.len() - i,
    {
        let p = under_home(h, all[i]);
        let ghost before = dirs.deep_view();
        dirs.push(p);
        assert(dirs.deep_view() =~= before.push(resolve_spec(*env, UserDir::all_seq()[i as int])));
        i += 1;
    }
    proof {
        crate::lemma_index_bijection();
    }
    Some(UserDirs::from_table(dirs))
}

/// On macOS, `resolve_all` agrees with `resolve` for every directory, and
/// both fail together.
pub proof fn lemma_resolve_all_agrees(env: Environment)
    ensures
        match resolve_all_spec(env) {
            Some(t) => t.len() == COUNT && forall|w: UserDir| #[trigger] t[w.index_of() as int]
                == resolve_spec(env, w),
            None => forall|w: UserDir| #[trigger] resolve_spec(env, w) is None,
        },
{
    crate::lemma_index_bijection();
}

/// On macOS every directory lies directly under the home directory: its path
/// starts with the home directory's bytes and is longer, and it is absolute
/// whenever the home directory is.
pub proof fn lemma_paths_under_home(env: Environment, which: UserDir)
    requires
        resolve_spec(env, which) is Some,
    ensures
        ({
            let h = home_spec(opt_vec(env.home))->0;
            let p = resolve_spec(env, which)->0;
            &&& home_spec(opt_vec(env.home)) is Some
            &&& p.len() > h.len()
            &&& p.subrange(0, h.len() as int) == h
            &&& h[0] == SLASH ==> p[0] == SLASH
        }),
{
    let h = home_spec(opt_vec(env.home))->0;
    let s = ascii(suffix_name(which)->0);
    let p = join_spec(h, s);
    assert(s.len() > 0 && s[0] != SLASH) by {
        match which {
            UserDir::Audio => {},
            UserDir::Desktop => {},
            UserDir::Document => {},
            UserDir::Download => {},
            UserDir::Font => {},
            UserDir::Picture => {},
            UserDir::Project => {},
            UserDir::Public => {},
            UserDir::Template => {},
            UserDir::Video => {},
        }
    }
    assert(p.subrange(0, h.len() as int) =~= h);
}

} // verus!
