//! Who is in a room of the multiplayer service, as far as it can be
//! decided without the network.

use vstd::prelude::*;

verus! {

/// Whether a user whose last sign of life came at `last_heartbeat` has
/// been silent for longer than `heartbeat_timeout_s` at the time `now`.
/// All times are in seconds.
pub open spec fn is_stale(last_heartbeat: i64, heartbeat_timeout_s: i64, now: i64) -> bool {
    last_heartbeat + heartbeat_timeout_s < now
}

/// The sessions among `users[0..n]` that are stale, in order.
pub open spec fn stale_sessions(
    users: Seq<(u128, i64)>,
    heartbeat_timeout_s: i64,
    now: i64,
    n: int,
) -> Seq<u128>
    decreases n,
{
    if n <= 0 || n > users.len() {
        Seq::empty()
    } else {
        let before = stale_sessions(users, heartbeat_timeout_s, now, n - 1);
        if is_stale(users[n - 1].1, heartbeat_timeout_s, now) {
            before.push(users[n - 1].0)
        } else {
            before
        }
    }
}

/// Whether the user has been silent for too long.
pub fn user_is_stale(last_heartbeat: i64, heartbeat_timeout_s: i64, now: i64) -> (r: bool)
    ensures
        r == is_stale(last_heartbeat, heartbeat_timeout_s, now),
{
    (last_heartbeat as i128) + (heartbeat_timeout_s as i128) < now as i128
}

/// Picks the users of a room that have to leave. `users` holds, for each
/// user, the session and the time of the last sign of life. The result
/// is the stale sessions, in order, and the number of users that stay.
pub fn find_stale_users(users: &Vec<(u128, i64)>, heartbeat_timeout_s: i64, now: i64) -> (r: (
    Vec<u128>,
    usize,
))
    ensures
        r.0@ == stale_sessions(users@, heartbeat_timeout_s, now, users@.len() as int),
        r.1 == users@.len() - r.0@.len(),
{
    let mut stale: Vec<u128> = Vec::new();
    let mut remaining: usize = 0;
    let mut i: usize = 0;
    while i < users.len()
        invariant
            i <= users.len(),
            stale@ == stale_sessions(users@, heartbeat_timeout_s, now, i as int),
            remaining == i - stale@.len(),
        decreases users.len() - i,
    {
        if user_is_stale(users[i].1, heartbeat_timeout_s, now) {
            stale.push(users[i].0);
        } else {
            remaining += 1;
        }
        i += 1;
    }
    (stale, remaining)
}

/// Takes over `update` where it says something: a field that the update
/// leaves out keeps its value.
pub fn merge_field<T>(current: &mut Option<T>, update: Option<T>)
    ensures
        *final(current) == if update is Some {
            update
        } else {
            *old(current)
        },
{
    match update {
        Some(value) => {
            *current = Some(value);
        },
        None => {},
    }
}

/// What identifies a user in a room.
#[derive(Debug)]
pub struct UserIdentity {
    pub session_id: u128,
    pub user_id: String,
    pub first_name: String,
    pub last_name: String,
    pub image: String,
}

impl UserIdentity {
    /// Whether the two are the same user: session, user and what is
    /// shown of the user are the same.
    pub fn same_user(&self, other: &UserIdentity) -> (r: bool)
        ensures
            r == (self.session_id == other.session_id && self.user_id@ == other.user_id@
                && self.first_name@ == other.first_name@ && self.last_name@ == other.last_name@
                && self.image@ == other.image@),
    {
        self.session_id == other.session_id && self.user_id == other.user_id && self.first_name
            == other.first_name && self.last_name == other.last_name && self.image == other.image
    }
}

} // verus!
