use std::collections::HashMap;
use vstd::prelude::*;

verus! {

broadcast use vstd::std_specs::hash::group_hash_axioms;

/// A solvable problem.
#[derive(Clone, Debug)]
pub struct Challenge {
    pub id: i64,
    pub name: String,
    pub description: String,
    pub category_id: i64,
    pub healthy: bool,
    pub points: i64,
    pub solves: i64,
    pub author_id: i64,
    pub flag: String,
}

/// A grouping of challenges.
#[derive(Clone, Debug)]
pub struct Category {
    pub id: i64,
    pub name: String,
    pub color: String,
}

/// Metadata on the creator of a challenge.
#[derive(Clone, Debug)]
pub struct Author {
    pub name: String,
    pub avatar_url: String,
    pub discord_id: String,
}

/// A snapshot of the whole challenge set: challenges, categories, and the
/// authors keyed by author id.
#[derive(Clone, Debug)]
pub struct ChallengeData {
    pub challenges: Vec<Challenge>,
    pub categories: Vec<Category>,
    pub authors: HashMap<i64, Author>,
}

/// Some category has this id.
pub open spec fn category_known(categories: Seq<Category>, id: i64) -> bool {
    exists|j: int| 0 <= j < categories.len() && (#[trigger] categories[j]).id == id
}

impl ChallengeData {
    /// No two challenges share an id.
    pub open spec fn challenge_ids_unique(self) -> bool {
        forall|i: int, j: int|
            0 <= i < self.challenges@.len() && 0 <= j < self.challenges@.len() && i != j
                ==> (#[trigger] self.challenges@[i]).id != (#[trigger] self.challenges@[j]).id
    }

    /// No two categories share an id.
    pub open spec fn category_ids_unique(self) -> bool {
        forall|i: int, j: int|
            0 <= i < self.categories@.len() && 0 <= j < self.categories@.len() && i != j
                ==> (#[trigger] self.categories@[i]).id != (#[trigger] self.categories@[j]).id
    }

    /// Every challenge's author is among the authors.
    pub open spec fn authors_resolve(self) -> bool {
        forall|i: int|
            0 <= i < self.challenges@.len() ==> self.authors@.contains_key((#[trigger] self.challenges@[i]).author_id)
    }

    /// The snapshot is consistent: ids are unique, and every challenge's
    /// category and author resolve.
    pub open spec fn consistent(self) -> bool {
        &&& self.challenge_ids_unique()
        &&& self.category_ids_unique()
        &&& self.categories_resolve()
        &&& self.authors_resolve()
    }

    /// Every challenge's category resolves among the categories.
    pub open spec fn categories_resolve(self) -> bool {
        forall|i: int|
            0 <= i < self.challenges@.len() ==> category_known(
                self.categories@,
                (#[trigger] self.challenges@[i]).category_id,
            )
    }
}


/// A record of a correct submission: when it was made (seconds since the
/// Unix epoch) and by which user.
#[derive(Clone, Copy, Debug, PartialEq, Eq, Structural)]
pub struct ChallengeSolve {
    pub solved_at: i64,
    pub user_id: i64,
}

/// A member of a team, as shown in a team snapshot.
#[derive(Clone, Debug)]
pub struct TeamUser {
    pub name: String,
    pub avatar_url: String,
    pub is_team_owner: bool,
}

/// A snapshot of a team: its members keyed by user id and its solves keyed
/// by challenge id.
#[derive(Clone, Debug)]
pub struct TeamInner {
    pub id: i64,
    pub name: String,
    pub invite_token: String,
    pub users: HashMap<i64, TeamUser>,
    pub solves: HashMap<i64, ChallengeSolve>,
}

/// The identity of a team without its members or solves.
#[derive(Clone, Debug)]
pub struct TeamMetaInner {
    pub id: i64,
    pub name: String,
}

/// A platform account.
#[derive(Clone, Debug)]
pub struct User {
    pub id: i64,
    pub name: String,
    pub email: String,
    pub avatar: String,
    pub discord_id: String,
    pub team_id: Option<i64>,
}

/// The mathematical view of a user.
pub struct UserView {
    pub id: i64,
    pub name: Seq<char>,
    pub email: Seq<char>,
    pub avatar: Seq<char>,
    pub discord_id: Seq<char>,
    pub team_id: Option<i64>,
}

impl View for User {
    type V = UserView;

    open spec fn view(&self) -> UserView {
        UserView {
            id: self.id,
            name: self.name@,
            email: self.email@,
            avatar: self.avatar@,
            discord_id: self.discord_id@,
            team_id: self.team_id,
        }
    }
}

/// Every challenge's category resolves among the snapshot's categories.
pub fn categories_resolve(data: &ChallengeData) -> (r: bool)
    ensures
        r == data.categories_resolve(),
{
    let mut i: usize = 0;
    while i < data.challenges.len()
        invariant
            0 <= i <= data.challenges@.len(),
            forall|a: int|
                0 <= a < i ==> category_known(data.categories@, (#[trigger] data.challenges@[a]).category_id),
        decreases data.challenges@.len() - i,
    {
        let want = data.challenges[i].category_id;
        let mut j: usize = 0;
        let mut found = false;
        while j < data.categories.len()
            invariant
                0 <= j <= data.categories@.len(),
                found ==> category_known(data.categories@, want),
                !found ==> forall|k: int| 0 <= k < j ==> data.categories@[k].id != want,
            decreases data.categories@.len() - j,
        {
            if data.categories[j].id == want {
                found = true;
            }
            j += 1;
        }
        if !found {
            assert(!category_known(data.categories@, want));
            return false;
        }
        i += 1;
    }
    true
}

/// No two challenges of the snapshot share an id.
pub fn challenge_ids_unique(data: &ChallengeData) -> (r: bool)
    ensures
        r == data.challenge_ids_unique(),
{
    let n = data.challenges.len();
    let mut i: usize = 0;
    while i < n
        invariant
            n == data.challenges@.len(),
            0 <= i <= n,
            forall|a: int, b: int|
                0 <= a < i && 0 <= b < n && a != b ==> (#[trigger] data.challenges@[a]).id
                    != (#[trigger] data.challenges@[b]).id,
        decreases n - i,
    {
        let mut j: usize = 0;
        while j < n
            invariant
                n == data.challenges@.len(),
                0 <= i < n,
                0 <= j <= n,
                forall|a: int, b: int|
                    0 <= a < i && 0 <= b < n && a != b ==> (#[trigger] data.challenges@[a]).id
                        != (#[trigger] data.challenges@[b]).id,
                forall|b: int| 0 <= b < j && b != i ==> data.challenges@[i as int].id != (#[trigger] data.challenges@[b]).id,
            decreases n - j,
        {
            if j != i && data.challenges[i].id == data.challenges[j].id {
                assert(!data.challenge_ids_unique()) by {
                    assert(data.challenges@[i as int].id == data.challenges@[j as int].id);
                }
                return false;
            }
            j += 1;
        }
        i += 1;
    }
    true
}

/// No two categories of the snapshot share an id.
pub fn category_ids_unique(data: &ChallengeData) -> (r: bool)
    ensures
        r == data.category_ids_unique(),
{
    let n = data.categories.len();
    let mut i: usize = 0;
    while i < n
        invariant
            n == data.categories@.len(),
            0 <= i <= n,
            forall|a: int, b: int|
                0 <= a < i && 0 <= b < n && a != b ==> (#[trigger] data.categories@[a]).id
                    != (#[trigger] data.categories@[b]).id,
        decreases n - i,
    {
        let mut j: usize = 0;
        while j < n
            invariant
                n == data.categories@.len(),
                0 <= i < n,
                0 <= j <= n,
                forall|a: int, b: int|
                    0 <= a < i && 0 <= b < n && a != b ==> (#[trigger] data.categories@[a]).id
                        != (#[trigger] data.categories@[b]).id,
                forall|b: int| 0 <= b < j && b != i ==> data.categories@[i as int].id != (#[trigger] data.categories@[b]).id,
            decreases n - j,
        {
            if j != i && data.categories[i].id == data.categories[j].id {
                assert(!data.category_ids_unique()) by {
                    assert(data.categories@[i as int].id == data.categories@[j as int].id);
                }
                return false;
            }
            j += 1;
        }
        i += 1;
    }
    true
}

/// Every challenge's author is among the snapshot's authors.
pub fn authors_resolve(data: &ChallengeData) -> (r: bool)
    ensures
        r == data.authors_resolve(),
{
    let mut i: usize = 0;
    while i < data.challenges.len()
        invariant
            0 <= i <= data.challenges@.len(),
            forall|a: int| 0 <= a < i ==> data.authors@.contains_key((#[trigger] data.challenges@[a]).author_id),
        decreases data.challenges@.len() - i,
    {
        if !data.authors.contains_key(&data.challenges[i].author_id) {
            assert(!data.authors_resolve()) by {
                assert(!data.authors@.contains_key(data.challenges@[i as int].author_id));
            }
            return false;
        }
        i += 1;
    }
    true
}

/// The snapshot is consistent: unique ids, and every challenge's category
/// and author resolve.
pub fn snapshot_consistent(data: &ChallengeData) -> (r: bool)
    ensures
        r == data.consistent(),
{
    challenge_ids_unique(data) && category_ids_unique(data) && categories_resolve(data) && authors_resolve(data)
}

} // verus!
