//! The decisions of the HTTP layer: the ask flow, sessions, settings access,
//! conversation defaults and static UI routing.

pub mod ask;
pub mod auth;
pub mod conversations;
pub mod settings;
pub mod static_ui;

use vstd::prelude::*;
use crate::config::AdminSeed;

verus! {

/// The admin account to create on start: the configured seed, unless no
/// seed is configured or a user of that name already exists.
pub fn seed_admin(seed: &Option<AdminSeed>, user_exists: bool) -> (r: Option<AdminSeed>)
    ensures
        match r {
            Some(a) => !user_exists && (seed matches Some(s) && a.username@ == s.username@
                && a.password_hash@ == s.password_hash@),
            None => user_exists || seed is None,
        },
{
    match seed {
        Some(s) => {
            if user_exists {
                None
            } else {
                Some(
                    AdminSeed {
                        username: s.username.clone(),
                        password_hash: s.password_hash.clone(),
                    },
                )
            }
        },
        None => None,
    }
}

/// The usernames of the store after a start with `seed`: the seed's name
/// is added when no user has it.
pub open spec fn usernames_after_seed(names: Set<Seq<char>>, seed: Option<AdminSeed>) -> Set<
    Seq<char>,
> {
    match seed {
        Some(s) => names.insert(s.username@),
        None => names,
    }
}

/// Seeding is done once: a second start with the same seed creates nothing,
/// and leaves the usernames as the first start left them.
pub proof fn lemma_seed_admin_once(names: Set<Seq<char>>, seed: Option<AdminSeed>)
    ensures
        seed matches Some(s) ==> usernames_after_seed(names, seed).contains(s.username@),
        usernames_after_seed(usernames_after_seed(names, seed), seed) == usernames_after_seed(
            names,
            seed,
        ),
{
    match seed {
        Some(s) => {
            assert(names.insert(s.username@).insert(s.username@) =~= names.insert(s.username@));
        },
        None => {},
    }
}

} // verus!
