//! Targets with no user-directory concept (neither Unix nor Windows, such as
//! `wasm32-unknown-unknown`): every lookup is absent.
use vstd::prelude::*;
use crate::{Environment, UserDir, UserDirs};

verus! {

/// No directory exists here.
pub fn resolve(env: &Environment, which: UserDir) -> (r: Option<Vec<u8>>)
    ensures
        r is None,
{
    None
}

/// No directory exists here.
pub fn resolve_all(env: &Environment) -> (r: Option<UserDirs>)
    ensures
        r is None,
{
    None
}

} // verus!
