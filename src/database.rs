use crate::entities::{
    snapshot_consistent, ChallengeData, ChallengeSolve, TeamInner, TeamMetaInner, TeamUser, User,
    UserView,
};
use std::collections::HashMap;
use vstd::prelude::*;

verus! {

broadcast use vstd::std_specs::hash::group_hash_axioms;

/// What can go wrong in a storage operation.
#[derive(Clone, Copy, Debug, PartialEq, Eq, Structural)]
pub enum StoreError {
    /// An id or token that does not resolve.
    NotFound,
    /// The team has already solved the challenge.
    AlreadySolved,
    /// The user's current team is not the one the caller expected.
    TeamMismatch,
    /// Another team already holds the invite token.
    TokenInUse,
    /// The store cannot take another record, or cannot be reached.
    Unavailable,
    /// A team's owner cannot move to another team.
    OwnerCannotLeave,
}

/// The mathematical view of a stored team.
pub struct TeamView {
    pub id: i64,
    pub name: Seq<char>,
    pub invite_token: Seq<char>,
    pub owner_id: i64,
    pub solves: Seq<(i64, ChallengeSolve)>,
}

/// The mathematical view of a stored request-tracking observation.
pub struct TrackView {
    pub ip: Seq<char>,
    pub user_agent: Option<Seq<char>>,
    pub user_id: Option<i64>,
    pub requests: u64,
}

/// The persisted state: users and teams, each identified by its position
/// plus one, and the tracking log.
pub struct StoreView {
    pub users: Seq<UserView>,
    pub teams: Seq<TeamView>,
    pub tracks: Seq<TrackView>,
}

/// Ids are positive `i64`s, so no table may grow past this many records.
pub const MAX_RECORDS: u64 = 0x7fff_ffff_ffff_fffe;

/// The user with this id exists.
pub open spec fn user_exists(s: StoreView, user_id: i64) -> bool {
    1 <= user_id <= s.users.len()
}

/// The team with this id exists.
pub open spec fn team_exists(s: StoreView, team_id: i64) -> bool {
    1 <= team_id <= s.teams.len()
}

/// Some team holds this invite token.
pub open spec fn token_in_use(s: StoreView, token: Seq<char>) -> bool {
    exists|i: int| 0 <= i < s.teams.len() && (#[trigger] s.teams[i]).invite_token == token
}

/// Some user has this external identity.
pub open spec fn identity_known(s: StoreView, discord_id: Seq<char>) -> bool {
    exists|i: int| 0 <= i < s.users.len() && (#[trigger] s.users[i]).discord_id == discord_id
}

/// The team has a solve recorded for the challenge.
pub open spec fn has_solved(t: TeamView, challenge_id: i64) -> bool {
    exists|k: int| 0 <= k < t.solves.len() && (#[trigger] t.solves[k]).0 == challenge_id
}

/// Validity of the persisted state: ids follow positions, every team
/// reference resolves, each team's owner belongs to it, external identities and invite tokens are unique,
/// and a team holds at most one solve per challenge.
pub open spec fn store_wf(s: StoreView) -> bool {
    &&& s.users.len() <= MAX_RECORDS
    &&& s.teams.len() <= MAX_RECORDS
    &&& forall|i: int| 0 <= i < s.users.len() ==> (#[trigger] s.users[i]).id == i + 1
    &&& forall|i: int| 0 <= i < s.teams.len() ==> (#[trigger] s.teams[i]).id == i + 1
    &&& forall|i: int|
        0 <= i < s.users.len() ==> match (#[trigger] s.users[i]).team_id {
            Some(t) => team_exists(s, t),
            None => true,
        }
    &&& forall|i: int| 0 <= i < s.teams.len() ==> user_exists(s, (#[trigger] s.teams[i]).owner_id)
    &&& forall|i: int|
        0 <= i < s.teams.len() ==> s.users[(#[trigger] s.teams[i]).owner_id - 1].team_id == Some((i + 1) as i64)
    &&& forall|i: int, j: int|
        0 <= i < s.users.len() && 0 <= j < s.users.len() && i != j ==> (#[trigger] s.users[i]).discord_id
            != (#[trigger] s.users[j]).discord_id
    &&& forall|i: int, j: int|
        0 <= i < s.teams.len() && 0 <= j < s.teams.len() && i != j ==> (#[trigger] s.teams[i]).invite_token
            != (#[trigger] s.teams[j]).invite_token
    &&& forall|i: int, k: int, l: int|
        0 <= i < s.teams.len() && 0 <= k < s.teams[i].solves.len() && 0 <= l < s.teams[i].solves.len()
            && k != l ==> (#[trigger] s.teams[i].solves[k]).0 != (#[trigger] s.teams[i].solves[l]).0
}

/// `upsert_user`: the user with this external identity gets the new profile
/// fields and keeps its id and team; an unknown identity becomes a new user
/// without a team.
pub open spec fn upsert_user_spec(
    s: StoreView,
    name: Seq<char>,
    email: Seq<char>,
    avatar: Seq<char>,
    discord_id: Seq<char>,
) -> (StoreView, Result<i64, StoreError>) {
    if identity_known(s, discord_id) {
        let i = choose|i: int| 0 <= i < s.users.len() && (#[trigger] s.users[i]).discord_id == discord_id;
        let u = UserView { name, email, avatar, ..s.users[i] };
        (StoreView { users: s.users.update(i, u), ..s }, Ok(s.users[i].id))
    } else if s.users.len() < MAX_RECORDS {
        let id = (s.users.len() + 1) as i64;
        let u = UserView { id, name, email, avatar, discord_id, team_id: None };
        (StoreView { users: s.users.push(u), ..s }, Ok(id))
    } else {
        (s, Err(StoreError::Unavailable))
    }
}

/// `create_team`: a user without a team founds a new team, which it owns and
/// now belongs to.
pub open spec fn create_team_spec(s: StoreView, owner_id: i64, name: Seq<char>, token: Seq<char>) -> (
    StoreView,
    Result<i64, StoreError>,
) {
    if !user_exists(s, owner_id) {
        (s, Err(StoreError::NotFound))
    } else if s.users[owner_id - 1].team_id.is_some() {
        (s, Err(StoreError::TeamMismatch))
    } else if token_in_use(s, token) {
        (s, Err(StoreError::TokenInUse))
    } else if s.teams.len() >= MAX_RECORDS {
        (s, Err(StoreError::Unavailable))
    } else {
        let id = (s.teams.len() + 1) as i64;
        let t = TeamView { id, name, invite_token: token, owner_id, solves: Seq::empty() };
        let u = UserView { team_id: Some(id), ..s.users[owner_id - 1] };
        (StoreView { users: s.users.update(owner_id - 1, u), teams: s.teams.push(t), ..s }, Ok(id))
    }
}

/// `add_user_to_team`: moves the user only if its current team is exactly
/// `old_team_id` (`None`: no team yet), and never moves a team's owner out
/// of its team, so that every team keeps exactly one owner.
pub open spec fn add_user_to_team_spec(s: StoreView, user_id: i64, team_id: i64, old_team_id: Option<i64>) -> (
    StoreView,
    Result<(), StoreError>,
) {
    if !user_exists(s, user_id) || !team_exists(s, team_id) {
        (s, Err(StoreError::NotFound))
    } else if s.users[user_id - 1].team_id != old_team_id {
        (s, Err(StoreError::TeamMismatch))
    } else if old_team_id matches Some(t) && t != team_id && team_exists(s, t) && s.teams[t - 1].owner_id == user_id {
        (s, Err(StoreError::OwnerCannotLeave))
    } else {
        let u = UserView { team_id: Some(team_id), ..s.users[user_id - 1] };
        (StoreView { users: s.users.update(user_id - 1, u), ..s }, Ok(()))
    }
}

/// `solve_challenge`: records the first solve of a challenge by a team, and
/// refuses every later one.
pub open spec fn solve_challenge_spec(s: StoreView, user_id: i64, team_id: i64, challenge_id: i64, solved_at: i64) -> (
    StoreView,
    Result<(), StoreError>,
) {
    if !user_exists(s, user_id) || !team_exists(s, team_id) {
        (s, Err(StoreError::NotFound))
    } else if has_solved(s.teams[team_id - 1], challenge_id) {
        (s, Err(StoreError::AlreadySolved))
    } else {
        let t = s.teams[team_id - 1];
        let t2 = TeamView { solves: t.solves.push((challenge_id, ChallengeSolve { solved_at, user_id })), ..t };
        (StoreView { teams: s.teams.update(team_id - 1, t2), ..s }, Ok(()))
    }
}

/// `roll_invite_token`: the team's token becomes `token`, which no team may
/// hold already.
pub open spec fn roll_invite_token_spec(s: StoreView, team_id: i64, token: Seq<char>) -> (StoreView, Result<(), StoreError>) {
    if !team_exists(s, team_id) {
        (s, Err(StoreError::NotFound))
    } else if token_in_use(s, token) {
        (s, Err(StoreError::TokenInUse))
    } else {
        let t = TeamView { invite_token: token, ..s.teams[team_id - 1] };
        (StoreView { teams: s.teams.update(team_id - 1, t), ..s }, Ok(()))
    }
}

/// `set_team_name`: renames the team. Two teams may share a name.
pub open spec fn set_team_name_spec(s: StoreView, team_id: i64, name: Seq<char>) -> (StoreView, Result<(), StoreError>) {
    if !team_exists(s, team_id) {
        (s, Err(StoreError::NotFound))
    } else {
        let t = TeamView { name, ..s.teams[team_id - 1] };
        (StoreView { teams: s.teams.update(team_id - 1, t), ..s }, Ok(()))
    }
}

/// The user with this id belongs to the team.
pub open spec fn is_member(s: StoreView, user_id: i64, team_id: i64) -> bool {
    user_exists(s, user_id) && s.users[user_id - 1].team_id == Some(team_id)
}

/// The snapshot entry of member `u` of a team owned by `owner_id`.
pub open spec fn member_entry_matches(entry: TeamUser, u: UserView, owner_id: i64) -> bool {
    &&& entry.name@ == u.name
    &&& entry.avatar_url@ == u.avatar
    &&& entry.is_team_owner == (u.id == owner_id)
}

/// `get_team_from_id`: the snapshot shows the stored team, its members by
/// user id and its solves by challenge id.
pub open spec fn team_snapshot_matches(s: StoreView, team_id: i64, t: TeamInner) -> bool {
    let team = s.teams[team_id - 1];
    &&& t.id == team_id
    &&& t.name@ == team.name
    &&& t.invite_token@ == team.invite_token
    &&& forall|id: i64| #[trigger] t.users@.contains_key(id) <==> is_member(s, id, team_id)
    &&& forall|id: i64|
        #[trigger] t.users@.contains_key(id) ==> member_entry_matches(t.users@[id], s.users[id - 1], team.owner_id)
    &&& forall|c: i64| #[trigger] t.solves@.contains_key(c) <==> has_solved(team, c)
    &&& forall|k: int| 0 <= k < team.solves.len() ==> t.solves@[(#[trigger] team.solves[k]).0] == team.solves[k].1
}

/// `get_team_meta_from_invite_token`: the team that holds the token, if any.
pub open spec fn team_of_token(s: StoreView, token: Seq<char>) -> Option<int> {
    if token_in_use(s, token) {
        Some(choose|i: int| 0 <= i < s.teams.len() && (#[trigger] s.teams[i]).invite_token == token)
    } else {
        None
    }
}


/// Relies on chrono's `From<SystemTime> for DateTime<Utc>` and
/// `DateTime::timestamp`: the system clock, in seconds since the Unix epoch
/// (negative before it). Nothing is promised of its value.
#[verifier::external_body]
fn now_timestamp() -> (r: i64) {
    chrono::DateTime::<chrono::Utc>::from(std::time::SystemTime::now()).timestamp()
}

struct TeamRecord {
    id: i64,
    name: String,
    invite_token: String,
    owner_id: i64,
    solves: Vec<(i64, ChallengeSolve)>,
}

impl View for TeamRecord {
    type V = TeamView;

    closed spec fn view(&self) -> TeamView {
        TeamView {
            id: self.id,
            name: self.name@,
            invite_token: self.invite_token@,
            owner_id: self.owner_id,
            solves: self.solves@,
        }
    }
}

struct Track {
    ip: String,
    user_agent: Option<String>,
    user_id: Option<i64>,
    requests: u64,
}

impl View for Track {
    type V = TrackView;

    closed spec fn view(&self) -> TrackView {
        TrackView {
            ip: self.ip@,
            user_agent: match self.user_agent {
                Some(a) => Some(a@),
                None => None,
            },
            user_id: self.user_id,
            requests: self.requests,
        }
    }
}

/// The storage contract: the one authority over persisted state. Every
/// operation is stated over the store's model; a backend may also fail with
/// `Unavailable`, and a mutating operation that does so changes nothing.
pub trait Database {
    /// The persisted state.
    spec fn model(&self) -> StoreView;

    /// The challenge snapshot the backend serves.
    spec fn challenge_snapshot(&self) -> ChallengeData;

    /// Validity of the backend's state.
    spec fn well_formed(&self) -> bool;

    /// A valid backend has a valid model.
    proof fn lemma_well_formed_model(&self)
        requires
            self.well_formed(),
        ensures
            store_wf(self.model()),
    ;

    /// Brings the schema to the current version; on a current schema it
    /// changes nothing.
    fn migrate(&self) -> (r: Result<(), StoreError>)
    ;

    /// Creates the user on first sight of `discord_id`, and otherwise
    /// updates its profile; either way returns its id.
    fn upsert_user(&mut self, name: &str, email: &str, avatar: &str, discord_id: &str) -> (r: Result<i64, StoreError>)
        requires
            old(self).well_formed(),
        ensures
            final(self).well_formed(),
            final(self).challenge_snapshot() == old(self).challenge_snapshot(),
            (r matches Err(StoreError::Unavailable)) && final(self).model() == old(self).model() || ({
                (final(self).model(), r) == upsert_user_spec(old(self).model(), name@, email@, avatar@, discord_id@)
            }),
    ;

    /// Moves a user into a team, provided its current team is `old_team_id`
    /// (`None`: the user has no team yet).
    fn add_user_to_team(&mut self, user_id: i64, team_id: i64, old_team_id: Option<i64>) -> (r: Result<(), StoreError>)
        requires
            old(self).well_formed(),
        ensures
            final(self).well_formed(),
            final(self).challenge_snapshot() == old(self).challenge_snapshot(),
            (r matches Err(StoreError::Unavailable)) && final(self).model() == old(self).model() || ({
                (final(self).model(), r) == add_user_to_team_spec(old(self).model(), user_id, team_id, old_team_id)
            }),
    ;

    /// Replaces the team's invite token by `invite_token` and returns it;
    /// the old token no longer resolves.
    fn roll_invite_token(&mut self, team_id: i64, invite_token: String) -> (r: Result<String, StoreError>)
        requires
            old(self).well_formed(),
        ensures
            final(self).well_formed(),
            final(self).challenge_snapshot() == old(self).challenge_snapshot(),
            (r matches Err(StoreError::Unavailable)) && final(self).model() == old(self).model() || ({
                final(self).model() == roll_invite_token_spec(old(self).model(), team_id, invite_token@).0 && match r {
                    Ok(t) => roll_invite_token_spec(old(self).model(), team_id, invite_token@).1 == Ok::<(), StoreError>(())
                        && t@ == invite_token@,
                    Err(e) => roll_invite_token_spec(old(self).model(), team_id, invite_token@).1 == Err::<(), StoreError>(e),
                }
            }),
    ;

    /// Renames the team.
    fn set_team_name(&mut self, team_id: i64, new_team_name: &str) -> (r: Result<(), StoreError>)
        requires
            old(self).well_formed(),
        ensures
            final(self).well_formed(),
            final(self).challenge_snapshot() == old(self).challenge_snapshot(),
            (r matches Err(StoreError::Unavailable)) && final(self).model() == old(self).model() || ({
                (final(self).model(), r) == set_team_name_spec(old(self).model(), team_id, new_team_name@)
            }),
    ;

    /// The user with this id.
    fn get_user_from_id(&self, user_id: i64) -> (r: Result<User, StoreError>)
        requires
            self.well_formed(),
        ensures
            (r matches Err(StoreError::Unavailable)) || ({
                match r {
                    Ok(u) => user_exists(self.model(), user_id) && u@ == self.model().users[user_id - 1],
                    Err(e) => !user_exists(self.model(), user_id) && e == StoreError::NotFound,
                }
            }),
    ;

    /// The id and name of the team that holds this invite token; `None`
    /// where no team holds it.
    fn get_team_meta_from_invite_token(&self, invite_token: &str) -> (r: Result<Option<TeamMetaInner>, StoreError>)
        requires
            self.well_formed(),
        ensures
            (r matches Err(StoreError::Unavailable)) || ({
                match r {
                    Ok(Some(m)) => team_of_token(self.model(), invite_token@) matches Some(i) && m.id == self.model().teams[i].id
                        && m.name@ == self.model().teams[i].name,
                    Ok(None) => team_of_token(self.model(), invite_token@) is None,
                    Err(_) => false,
                }
            }),
    ;

    /// A snapshot of the team with this id: its members and its solves.
    fn get_team_from_id(&self, team_id: i64) -> (r: Result<TeamInner, StoreError>)
        requires
            self.well_formed(),
        ensures
            (r matches Err(StoreError::Unavailable)) || ({
                match r {
                    Ok(t) => team_exists(self.model(), team_id) && team_snapshot_matches(self.model(), team_id, t),
                    Err(e) => !team_exists(self.model(), team_id) && e == StoreError::NotFound,
                }
            }),
    ;

    /// The challenge snapshot, which is consistent: unique ids, and every
    /// challenge's category and author resolve.
    fn get_challenges(&self) -> (r: Result<&ChallengeData, StoreError>)
        requires
            self.well_formed(),
        ensures
            match r {
                Ok(d) => *d == self.challenge_snapshot() && d.consistent(),
                Err(e) => e == StoreError::Unavailable,
            },
    ;

    /// Records a request-tracking observation.
    fn insert_track(&mut self, ip: &str, user_agent: Option<&str>, user_id: Option<i64>, requests: u64) -> (r: Result<(), StoreError>)
        requires
            old(self).well_formed(),
        ensures
            final(self).well_formed(),
            final(self).challenge_snapshot() == old(self).challenge_snapshot(),
            (r matches Err(StoreError::Unavailable)) && final(self).model() == old(self).model() || ({
                r is Ok && final(self).model() == (StoreView {
                    tracks: old(self).model().tracks.push(
                        TrackView {
                            ip: ip@,
                            user_agent: match user_agent {
                                Some(a) => Some(a@),
                                None => None,
                            },
                            user_id,
                            requests,
                        },
                    ),
                    ..old(self).model()
                })
            }),
    ;

    /// Records that `user_id` solved `challenge_id` for `team_id`, stamped
    /// with the current time, unless the team has solved it already.
    fn solve_challenge(&mut self, user_id: i64, team_id: i64, challenge_id: i64) -> (r: Result<(), StoreError>)
        requires
            old(self).well_formed(),
        ensures
            final(self).well_formed(),
            final(self).challenge_snapshot() == old(self).challenge_snapshot(),
            (r matches Err(StoreError::Unavailable)) && final(self).model() == old(self).model() || ({
                exists|at: i64| (final(self).model(), r) == solve_challenge_spec(old(self).model(), user_id, team_id, challenge_id, at)
            }),
    ;
}

/// A storage backend that keeps the whole state in memory.
pub struct MemoryDatabase {
    users: Vec<User>,
    teams: Vec<TeamRecord>,
    tracks: Vec<Track>,
    challenges: ChallengeData,
}

impl View for MemoryDatabase {
    type V = StoreView;

    closed spec fn view(&self) -> StoreView {
        StoreView {
            users: self.users@.map_values(|u: User| u@),
            teams: self.teams@.map_values(|t: TeamRecord| t@),
            tracks: self.tracks@.map_values(|t: Track| t@),
        }
    }
}

impl MemoryDatabase {
    /// The challenge snapshot this store serves.
    pub closed spec fn challenge_data(&self) -> ChallengeData {
        self.challenges
    }

    /// Validity of the store.
    pub closed spec fn wf(&self) -> bool {
        store_wf(self@) && self.challenges.consistent()
    }

    /// A valid store has a valid model.
    pub proof fn lemma_wf_model(&self)
        requires
            self.wf(),
        ensures
            store_wf(self@),
    {
    }

    /// An empty store serving `challenges`, or `None` where the snapshot is
    /// not consistent.
    pub fn new(challenges: ChallengeData) -> (r: Option<Self>)
        ensures
            r.is_some() == challenges.consistent(),
            r matches Some(db) ==> db.wf() && db@.users.len() == 0 && db@.teams.len() == 0
                && db@.tracks.len() == 0 && db.challenge_data() == challenges,
    {
        if !snapshot_consistent(&challenges) {
            return None;
        }
        let db = MemoryDatabase { users: Vec::new(), teams: Vec::new(), tracks: Vec::new(), challenges };
        assert(db@.users.len() == 0);
        Some(db)
    }

    /// Brings the schema to the current version: an in-memory store always
    /// is, so this changes nothing.
    pub fn migrate(&self) -> (r: Result<(), StoreError>)
        ensures
            r is Ok,
    {
        Ok(())
    }

    /// The position of the user with this external identity.
    fn find_identity(&self, discord_id: &String) -> (r: Option<usize>)
        requires
            self.wf(),
        ensures
            match r {
                Some(i) => i < self@.users.len() && self@.users[i as int].discord_id == discord_id@,
                None => !identity_known(self@, discord_id@),
            },
    {
        let mut i: usize = 0;
        while i < self.users.len()
            invariant
                self.wf(),
                0 <= i <= self.users@.len(),
                forall|k: int| 0 <= k < i ==> self@.users[k].discord_id != discord_id@,
            decreases self.users@.len() - i,
        {
            if self.users[i].discord_id == *discord_id {
                return Some(i);
            }
            i += 1;
        }
        None
    }

    /// The position of the team holding this invite token.
    fn find_token(&self, token: &String) -> (r: Option<usize>)
        requires
            self.wf(),
        ensures
            match r {
                Some(i) => i < self@.teams.len() && self@.teams[i as int].invite_token == token@,
                None => !token_in_use(self@, token@),
            },
    {
        let mut i: usize = 0;
        while i < self.teams.len()
            invariant
                self.wf(),
                0 <= i <= self.teams@.len(),
                forall|k: int| 0 <= k < i ==> self@.teams[k].invite_token != token@,
            decreases self.teams@.len() - i,
        {
            if self.teams[i].invite_token == *token {
                return Some(i);
            }
            i += 1;
        }
        None
    }

    /// Creates the user on first sight of `discord_id`, and otherwise
    /// updates its profile; either way returns its id.
    pub fn upsert_user(&mut self, name: &str, email: &str, avatar: &str, discord_id: &str) -> (r: Result<i64, StoreError>)
        requires
            old(self).wf(),
        ensures
            final(self).wf(),
            final(self).challenge_data() == old(self).challenge_data(),
            (final(self)@, r) == upsert_user_spec(old(self)@, name@, email@, avatar@, discord_id@),
    {
        let discord_id = discord_id.to_owned();
        match self.find_identity(&discord_id) {
            Some(i) => {
                let ghost s = self@;
                let id = self.users[i].id;
                let team_id = self.users[i].team_id;
                let u = User { id, name: name.to_owned(), email: email.to_owned(), avatar: avatar.to_owned(), discord_id, team_id };
                self.users[i] = u;
                assert(self@.users =~= upsert_user_spec(s, name@, email@, avatar@, discord_id@).0.users);
                Ok(id)
            },
            None => {
                if self.users.len() as u64 >= MAX_RECORDS {
                    return Err(StoreError::Unavailable);
                }
                let ghost s = self@;
                let id = self.users.len() as i64 + 1;
                let u = User { id, name: name.to_owned(), email: email.to_owned(), avatar: avatar.to_owned(), discord_id, team_id: None };
                self.users.push(u);
                assert(self@.users =~= s.users.push(u@));
                Ok(id)
            },
        }
    }

    /// A user without a team founds a team with this name and invite token;
    /// returns the new team's id.
    pub fn create_team(&mut self, owner_id: i64, name: &str, invite_token: String) -> (r: Result<i64, StoreError>)
        requires
            old(self).wf(),
        ensures
            final(self).wf(),
            final(self).challenge_data() == old(self).challenge_data(),
            (final(self)@, r) == create_team_spec(old(self)@, owner_id, name@, invite_token@),
    {
        if owner_id < 1 || owner_id as u64 > self.users.len() as u64 {
            return Err(StoreError::NotFound);
        }
        let ui = (owner_id - 1) as usize;
        if self.users[ui].team_id.is_some() {
            return Err(StoreError::TeamMismatch);
        }
        if self.find_token(&invite_token).is_some() {
            return Err(StoreError::TokenInUse);
        }
        if self.teams.len() as u64 >= MAX_RECORDS {
            return Err(StoreError::Unavailable);
        }
        let ghost s = self@;
        let id = self.teams.len() as i64 + 1;
        let t = TeamRecord { id, name: name.to_owned(), invite_token, owner_id, solves: Vec::new() };
        self.teams.push(t);
        self.users[ui].team_id = Some(id);
        let ghost post = create_team_spec(s, owner_id, name@, t.invite_token@).0;
        assert(self@.teams =~= post.teams);
        assert(self@.users =~= post.users);
        Ok(id)
    }

    /// Moves a user into a team, provided its current team is `old_team_id`
    /// (`None`: the user has no team yet).
    pub fn add_user_to_team(&mut self, user_id: i64, team_id: i64, old_team_id: Option<i64>) -> (r: Result<(), StoreError>)
        requires
            old(self).wf(),
        ensures
            final(self).wf(),
            final(self).challenge_data() == old(self).challenge_data(),
            (final(self)@, r) == add_user_to_team_spec(old(self)@, user_id, team_id, old_team_id),
    {
        if user_id < 1 || user_id as u64 > self.users.len() as u64 || team_id < 1 || team_id as u64
            > self.teams.len() as u64 {
            return Err(StoreError::NotFound);
        }
        let ui = (user_id - 1) as usize;
        if self.users[ui].team_id != old_team_id {
            return Err(StoreError::TeamMismatch);
        }
        if let Some(t) = old_team_id {
            if t != team_id && self.teams[(t - 1) as usize].owner_id == user_id {
                return Err(StoreError::OwnerCannotLeave);
            }
        }
        let ghost s = self@;
        self.users[ui].team_id = Some(team_id);
        assert(self@.users =~= add_user_to_team_spec(s, user_id, team_id, old_team_id).0.users);
        Ok(())
    }

    /// Records that `user_id` solved `challenge_id` for `team_id` at
    /// `solved_at`, unless the team has solved it already.
    pub fn solve_challenge_at(&mut self, user_id: i64, team_id: i64, challenge_id: i64, solved_at: i64) -> (r: Result<(), StoreError>)
        requires
            old(self).wf(),
        ensures
            final(self).wf(),
            final(self).challenge_data() == old(self).challenge_data(),
            (final(self)@, r) == solve_challenge_spec(old(self)@, user_id, team_id, challenge_id, solved_at),
    {
        if user_id < 1 || user_id as u64 > self.users.len() as u64 || team_id < 1 || team_id as u64
            > self.teams.len() as u64 {
            return Err(StoreError::NotFound);
        }
        let ti = (team_id - 1) as usize;
        let mut k: usize = 0;
        while k < self.teams[ti].solves.len()
            invariant
                self.wf(),
                self@ == old(self)@,
                user_exists(self@, user_id),
                team_exists(self@, team_id),
                ti == team_id - 1,
                ti < self@.teams.len(),
                0 <= k <= self@.teams[ti as int].solves.len(),
                forall|l: int| 0 <= l < k ==> self@.teams[ti as int].solves[l].0 != challenge_id,
            decreases self@.teams[ti as int].solves.len() - k,
        {
            if self.teams[ti].solves[k].0 == challenge_id {
                assert(has_solved(self@.teams[team_id - 1], challenge_id)) by {
                    assert(self@.teams[ti as int].solves[k as int].0 == challenge_id);
                }
                return Err(StoreError::AlreadySolved);
            }
            k += 1;
        }
        let ghost s = self@;
        self.teams[ti].solves.push((challenge_id, ChallengeSolve { solved_at, user_id }));
        let ghost post = solve_challenge_spec(s, user_id, team_id, challenge_id, solved_at).0;
        assert(self@.teams[ti as int].solves =~= post.teams[ti as int].solves);
        assert(self@.teams =~= post.teams);
        Ok(())
    }

    /// Replaces the team's invite token by `invite_token` and returns it;
    /// the old token no longer resolves.
    pub fn roll_invite_token(&mut self, team_id: i64, invite_token: String) -> (r: Result<String, StoreError>)
        requires
            old(self).wf(),
        ensures
            final(self).wf(),
            final(self).challenge_data() == old(self).challenge_data(),
            final(self)@ == roll_invite_token_spec(old(self)@, team_id, invite_token@).0,
            match r {
                Ok(t) => roll_invite_token_spec(old(self)@, team_id, invite_token@).1 == Ok::<(), StoreError>(())
                    && t@ == invite_token@,
                Err(e) => roll_invite_token_spec(old(self)@, team_id, invite_token@).1 == Err::<(), StoreError>(e),
            },
    {
        if team_id < 1 || team_id as u64 > self.teams.len() as u64 {
            return Err(StoreError::NotFound);
        }
        if self.find_token(&invite_token).is_some() {
            return Err(StoreError::TokenInUse);
        }
        let ti = (team_id - 1) as usize;
        let ghost s = self@;
        self.teams[ti].invite_token = invite_token.clone();
        assert(self@.teams =~= roll_invite_token_spec(s, team_id, invite_token@).0.teams);
        Ok(invite_token)
    }

    /// Renames the team.
    pub fn set_team_name(&mut self, team_id: i64, new_team_name: &str) -> (r: Result<(), StoreError>)
        requires
            old(self).wf(),
        ensures
            final(self).wf(),
            final(self).challenge_data() == old(self).challenge_data(),
            (final(self)@, r) == set_team_name_spec(old(self)@, team_id, new_team_name@),
    {
        if team_id < 1 || team_id as u64 > self.teams.len() as u64 {
            return Err(StoreError::NotFound);
        }
        let ti = (team_id - 1) as usize;
        let ghost s = self@;
        self.teams[ti].name = new_team_name.to_owned();
        assert(self@.teams =~= set_team_name_spec(s, team_id, new_team_name@).0.teams);
        Ok(())
    }

    /// The user with this id.
    pub fn get_user_from_id(&self, user_id: i64) -> (r: Result<User, StoreError>)
        requires
            self.wf(),
        ensures
            match r {
                Ok(u) => user_exists(self@, user_id) && u@ == self@.users[user_id - 1],
                Err(e) => !user_exists(self@, user_id) && e == StoreError::NotFound,
            },
    {
        if user_id < 1 || user_id as u64 > self.users.len() as u64 {
            return Err(StoreError::NotFound);
        }
        let u = &self.users[(user_id - 1) as usize];
        Ok(
            User {
                id: u.id,
                name: u.name.clone(),
                email: u.email.clone(),
                avatar: u.avatar.clone(),
                discord_id: u.discord_id.clone(),
                team_id: u.team_id,
            },
        )
    }

    /// The id and name of the team that holds this invite token; `None`
    /// where no team holds it.
    pub fn get_team_meta_from_invite_token(&self, invite_token: &str) -> (r: Result<Option<TeamMetaInner>, StoreError>)
        requires
            self.wf(),
        ensures
            match r {
                Ok(Some(m)) => team_of_token(self@, invite_token@) matches Some(i) && m.id == self@.teams[i].id
                    && m.name@ == self@.teams[i].name,
                Ok(None) => team_of_token(self@, invite_token@) is None,
                Err(_) => false,
            },
    {
        let token = invite_token.to_owned();
        match self.find_token(&token) {
            Some(i) => {
                proof {
                    let j = team_of_token(self@, token@)->0;
                    assert(self@.teams[j].invite_token == token@);
                }
                let t = &self.teams[i];
                Ok(Some(TeamMetaInner { id: t.id, name: t.name.clone() }))
            },
            None => Ok(None),
        }
    }

    /// A snapshot of the team with this id: its members and its solves.
    pub fn get_team_from_id(&self, team_id: i64) -> (r: Result<TeamInner, StoreError>)
        requires
            self.wf(),
        ensures
            match r {
                Ok(t) => team_exists(self@, team_id) && team_snapshot_matches(self@, team_id, t),
                Err(e) => !team_exists(self@, team_id) && e == StoreError::NotFound,
            },
    {
        if team_id < 1 || team_id as u64 > self.teams.len() as u64 {
            return Err(StoreError::NotFound);
        }
        let ti = (team_id - 1) as usize;
        let team = &self.teams[ti];
        let ghost owner = self@.teams[team_id - 1].owner_id;
        let mut users: HashMap<i64, TeamUser> = HashMap::new();
        let mut i: usize = 0;
        while i < self.users.len()
            invariant
                self.wf(),
                team_exists(self@, team_id),
                ti == team_id - 1,
                *team == self.teams@[ti as int],
                owner == team.owner_id,
                0 <= i <= self@.users.len(),
                forall|id: i64| #[trigger] users@.contains_key(id) <==> (id <= i && is_member(self@, id, team_id)),
                forall|id: i64|
                    #[trigger] users@.contains_key(id) ==> member_entry_matches(users@[id], self@.users[id - 1], owner),
            decreases self@.users.len() - i,
        {
            let u = &self.users[i];
            assert(self@.users[i as int].id == i + 1);
            if u.team_id == Some(team_id) {
                let entry = TeamUser {
                    name: u.name.clone(),
                    avatar_url: u.avatar.clone(),
                    is_team_owner: u.id == team.owner_id,
                };
                users.insert(u.id, entry);
            }
            i += 1;
        }
        let mut solves: HashMap<i64, ChallengeSolve> = HashMap::new();
        let mut k: usize = 0;
        while k < team.solves.len()
            invariant
                self.wf(),
                team_exists(self@, team_id),
                ti == team_id - 1,
                *team == self.teams@[ti as int],
                0 <= k <= team.solves@.len(),
                forall|c: i64|
                    #[trigger] solves@.contains_key(c) <==> exists|l: int| 0 <= l < k && team.solves@[l].0 == c,
                forall|l: int| 0 <= l < k ==> solves@[(#[trigger] team.solves@[l]).0] == team.solves@[l].1,
            decreases team.solves@.len() - k,
        {
            let (c, solve) = team.solves[k];
            assert forall|l: int| 0 <= l < k implies (#[trigger] team.solves@[l]).0 != c by {
                assert(self@.teams[ti as int].solves[l] == team.solves@[l]);
                assert(self@.teams[ti as int].solves[k as int] == team.solves@[k as int]);
            }
            solves.insert(c, solve);
            k += 1;
            assert(team.solves@[k - 1].0 == c);
        }
        let r = TeamInner {
            id: team.id,
            name: team.name.clone(),
            invite_token: team.invite_token.clone(),
            users,
            solves,
        };
        proof {
            let tv = self@.teams[team_id - 1];
            assert(tv.solves == team.solves@);
            assert forall|c: i64| #[trigger] r.solves@.contains_key(c) <==> has_solved(tv, c) by {
                if r.solves@.contains_key(c) {
                    let l = choose|l: int| 0 <= l < k && team.solves@[l].0 == c;
                    assert(tv.solves[l].0 == c);
                }
                if has_solved(tv, c) {
                    let l = choose|l: int| 0 <= l < tv.solves.len() && (#[trigger] tv.solves[l]).0 == c;
                    assert(team.solves@[l].0 == c);
                }
            }
            assert forall|id: i64| #[trigger] r.users@.contains_key(id) <==> is_member(self@, id, team_id) by {
                if is_member(self@, id, team_id) {
                    assert(id <= self@.users.len());
                }
            }
        }
        Ok(r)
    }

    /// The challenge snapshot, which is consistent: unique ids, and every
    /// challenge's category and author resolve.
    pub fn get_challenges(&self) -> (r: Result<&ChallengeData, StoreError>)
        requires
            self.wf(),
        ensures
            r matches Ok(d) && *d == self.challenge_data() && d.consistent(),
    {
        Ok(&self.challenges)
    }

    /// Records a request-tracking observation.
    pub fn insert_track(&mut self, ip: &str, user_agent: Option<&str>, user_id: Option<i64>, requests: u64) -> (r: Result<(), StoreError>)
        requires
            old(self).wf(),
        ensures
            final(self).wf(),
            final(self).challenge_data() == old(self).challenge_data(),
            r is Ok,
            final(self)@ == (StoreView {
                tracks: old(self)@.tracks.push(
                    TrackView {
                        ip: ip@,
                        user_agent: match user_agent {
                            Some(a) => Some(a@),
                            None => None,
                        },
                        user_id,
                        requests,
                    },
                ),
                ..old(self)@
            }),
    {
        let user_agent = match user_agent {
            Some(a) => Some(a.to_owned()),
            None => None,
        };
        let t = Track { ip: ip.to_owned(), user_agent, user_id, requests };
        let ghost s = self@;
        self.tracks.push(t);
        assert(self@.tracks =~= s.tracks.push(t@));
        Ok(())
    }

    /// Records a solve as `solve_challenge_at` does, stamped with the current
    /// time.
    pub fn solve_challenge_now(&mut self, user_id: i64, team_id: i64, challenge_id: i64) -> (r: Result<(), StoreError>)
        requires
            old(self).wf(),
        ensures
            final(self).wf(),
            final(self).challenge_data() == old(self).challenge_data(),
            exists|at: i64| (final(self)@, r) == solve_challenge_spec(old(self)@, user_id, team_id, challenge_id, at),
    {
        let at = now_timestamp();
        self.solve_challenge_at(user_id, team_id, challenge_id, at)
    }
}

impl Database for MemoryDatabase {
    closed spec fn model(&self) -> StoreView {
        self@
    }

    closed spec fn challenge_snapshot(&self) -> ChallengeData {
        self.challenges
    }

    closed spec fn well_formed(&self) -> bool {
        self.wf()
    }

    proof fn lemma_well_formed_model(&self) {
    }

    fn migrate(&self) -> (r: Result<(), StoreError>) {
        MemoryDatabase::migrate(self)
    }

    fn upsert_user(&mut self, name: &str, email: &str, avatar: &str, discord_id: &str) -> (r: Result<i64, StoreError>) {
        MemoryDatabase::upsert_user(self, name, email, avatar, discord_id)
    }

    fn add_user_to_team(&mut self, user_id: i64, team_id: i64, old_team_id: Option<i64>) -> (r: Result<(), StoreError>) {
        MemoryDatabase::add_user_to_team(self, user_id, team_id, old_team_id)
    }

    fn roll_invite_token(&mut self, team_id: i64, invite_token: String) -> (r: Result<String, StoreError>) {
        MemoryDatabase::roll_invite_token(self, team_id, invite_token)
    }

    fn set_team_name(&mut self, team_id: i64, new_team_name: &str) -> (r: Result<(), StoreError>) {
        MemoryDatabase::set_team_name(self, team_id, new_team_name)
    }

    fn get_user_from_id(&self, user_id: i64) -> (r: Result<User, StoreError>) {
        MemoryDatabase::get_user_from_id(self, user_id)
    }

    fn get_team_meta_from_invite_token(&self, invite_token: &str) -> (r: Result<Option<TeamMetaInner>, StoreError>) {
        MemoryDatabase::get_team_meta_from_invite_token(self, invite_token)
    }

    fn get_team_from_id(&self, team_id: i64) -> (r: Result<TeamInner, StoreError>) {
        MemoryDatabase::get_team_from_id(self, team_id)
    }

    fn get_challenges(&self) -> (r: Result<&ChallengeData, StoreError>) {
        MemoryDatabase::get_challenges(self)
    }

    fn insert_track(&mut self, ip: &str, user_agent: Option<&str>, user_id: Option<i64>, requests: u64) -> (r: Result<(), StoreError>) {
        MemoryDatabase::insert_track(self, ip, user_agent, user_id, requests)
    }

    fn solve_challenge(&mut self, user_id: i64, team_id: i64, challenge_id: i64) -> (r: Result<(), StoreError>) {
        let ghost pre = self@;
        let r = MemoryDatabase::solve_challenge_now(self, user_id, team_id, challenge_id);
        proof {
            let at = choose|at: i64| (self@, r) == solve_challenge_spec(pre, user_id, team_id, challenge_id, at);
            assert(old(self).model() == pre);
            assert((self.model(), r) == solve_challenge_spec(old(self).model(), user_id, team_id, challenge_id, at));
        }
        r
    }
}

/// Upserting the same external identity twice yields the same id both
/// times, and the user then carries the profile fields of the second call.
pub proof fn upsert_user_is_idempotent(
    s: StoreView,
    discord_id: Seq<char>,
    name1: Seq<char>,
    email1: Seq<char>,
    avatar1: Seq<char>,
    name2: Seq<char>,
    email2: Seq<char>,
    avatar2: Seq<char>,
)
    requires
        store_wf(s),
    ensures
        ({
            let (s1, r1) = upsert_user_spec(s, name1, email1, avatar1, discord_id);
            let (s2, r2) = upsert_user_spec(s1, name2, email2, avatar2, discord_id);
            r1 is Ok ==> {
                &&& r2 == r1
                &&& 1 <= r1->Ok_0 <= s2.users.len()
                &&& s2.users[r1->Ok_0 - 1].name == name2
                &&& s2.users[r1->Ok_0 - 1].email == email2
                &&& s2.users[r1->Ok_0 - 1].avatar == avatar2
                &&& s2.users[r1->Ok_0 - 1].discord_id == discord_id
            }
        }),
{
    let (s1, r1) = upsert_user_spec(s, name1, email1, avatar1, discord_id);
    if r1 is Ok {
        let i: int = r1->Ok_0 - 1;
        if identity_known(s, discord_id) {
            let c = choose|c: int| 0 <= c < s.users.len() && (#[trigger] s.users[c]).discord_id == discord_id;
            assert(i == c);
        }
        assert(s1.users[i].discord_id == discord_id);
        assert(s1.users[i].id == i + 1);
        assert forall|j: int| 0 <= j < s1.users.len() && j != i implies (#[trigger] s1.users[j]).discord_id
            != discord_id by {
            assert(s1.users[j] == s.users[j]);
        }
        assert(identity_known(s1, discord_id));
    }
}

/// A second solve of a challenge by a team that has just solved it fails as
/// a duplicate and changes nothing, whichever member submits it; the first
/// leaves exactly one record of the challenge for the team.
pub proof fn solve_challenge_first_wins(
    s: StoreView,
    team_id: i64,
    challenge_id: i64,
    user1: i64,
    solved_at1: i64,
    user2: i64,
    solved_at2: i64,
)
    requires
        store_wf(s),
        user_exists(s, user2),
    ensures
        ({
            let (s1, r1) = solve_challenge_spec(s, user1, team_id, challenge_id, solved_at1);
            let (s2, r2) = solve_challenge_spec(s1, user2, team_id, challenge_id, solved_at2);
            r1 is Ok ==> {
                &&& r2 == Err::<(), StoreError>(StoreError::AlreadySolved)
                &&& s2 == s1
                &&& store_wf(s1)
                &&& has_solved(s1.teams[team_id - 1], challenge_id)
            }
        }),
{
    let (s1, r1) = solve_challenge_spec(s, user1, team_id, challenge_id, solved_at1);
    if r1 is Ok {
        let t = s1.teams[team_id - 1];
        let n = s.teams[team_id - 1].solves.len();
        assert(t.solves[n as int].0 == challenge_id);
        assert(has_solved(t, challenge_id));
        assert forall|i: int, k: int, l: int|
            0 <= i < s1.teams.len() && 0 <= k < s1.teams[i].solves.len() && 0 <= l < s1.teams[i].solves.len()
                && k != l implies (#[trigger] s1.teams[i].solves[k]).0 != (#[trigger] s1.teams[i].solves[l]).0 by {
            if i == team_id - 1 {
                if k == n {
                    assert(s1.teams[i].solves[l] == s.teams[i].solves[l]);
                } else if l == n {
                    assert(s1.teams[i].solves[k] == s.teams[i].solves[k]);
                } else {
                    assert(s1.teams[i].solves[k] == s.teams[i].solves[k]);
                    assert(s1.teams[i].solves[l] == s.teams[i].solves[l]);
                }
            } else {
                assert(s1.teams[i] == s.teams[i]);
            }
        }
        assert forall|i: int, j: int|
            0 <= i < s1.teams.len() && 0 <= j < s1.teams.len() && i != j implies (#[trigger] s1.teams[i]).invite_token
            != (#[trigger] s1.teams[j]).invite_token by {
            assert(s1.teams[i].invite_token == s.teams[i].invite_token);
            assert(s1.teams[j].invite_token == s.teams[j].invite_token);
        }
        assert forall|i: int| 0 <= i < s1.teams.len() implies (#[trigger] s1.teams[i]).id == i + 1
            && user_exists(s1, s1.teams[i].owner_id) by {
            assert(s1.teams[i].id == s.teams[i].id);
            assert(s1.teams[i].owner_id == s.teams[i].owner_id);
        }
        assert forall|i: int| 0 <= i < s1.teams.len() implies s1.users[(#[trigger] s1.teams[i]).owner_id - 1].team_id
            == Some((i + 1) as i64) by {
            assert(s1.teams[i].owner_id == s.teams[i].owner_id);
        }
    }
}

/// A transfer that names a previous team other than the user's current one
/// fails and leaves the user's membership, and all else, as it was.
pub proof fn add_user_to_team_checks_old_team(s: StoreView, user_id: i64, team_id: i64, old_team_id: Option<i64>)
    requires
        store_wf(s),
        user_exists(s, user_id),
        s.users[user_id - 1].team_id != old_team_id,
    ensures
        ({
            let (s1, r) = add_user_to_team_spec(s, user_id, team_id, old_team_id);
            &&& r is Err
            &&& s1 == s
            &&& s1.users[user_id - 1].team_id == s.users[user_id - 1].team_id
        }),
{
}

/// After a team's invite token is rolled, the new token resolves to that
/// team and the previous one resolves to no team.
pub proof fn roll_invite_token_round_trip(s: StoreView, team_id: i64, token: Seq<char>)
    requires
        store_wf(s),
        team_exists(s, team_id),
        !token_in_use(s, token),
    ensures
        ({
            let (s1, r) = roll_invite_token_spec(s, team_id, token);
            let previous = s.teams[team_id - 1].invite_token;
            &&& r is Ok
            &&& team_of_token(s1, token) == Some(team_id - 1)
            &&& s1.teams[team_id - 1].id == team_id
            &&& s1.teams[team_id - 1].name == s.teams[team_id - 1].name
            &&& team_of_token(s1, previous) is None
        }),
{
    let (s1, r) = roll_invite_token_spec(s, team_id, token);
    let t: int = team_id - 1;
    let previous = s.teams[t].invite_token;
    assert(s1.teams[t].invite_token == token);
    assert(token_in_use(s1, token));
    assert forall|j: int| 0 <= j < s1.teams.len() && j != t implies (#[trigger] s1.teams[j]).invite_token != token by {
        assert(s1.teams[j] == s.teams[j]);
    }
    assert(token != previous) by {
        assert(s.teams[t].invite_token == previous);
    }
    assert forall|j: int| 0 <= j < s1.teams.len() implies (#[trigger] s1.teams[j]).invite_token != previous by {
        if j != t {
            assert(s1.teams[j] == s.teams[j]);
        }
    }
}

} // verus!
