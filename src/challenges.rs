use vstd::prelude::*;
use crate::database::{solve_challenge_spec, Database, StoreError};
use crate::entities::{Category, Challenge, ChallengeData};

verus! {

/// A flag submitted for a challenge.
#[derive(Clone, Debug)]
pub struct SubmitChallenge {
    pub flag: String,
}

/// What a flag submission came to.
#[derive(Clone, Copy, Debug, PartialEq, Eq, Structural)]
pub enum SubmitOutcome {
    /// The flag was right and the solve is recorded.
    Solved,
    /// The flag does not match the challenge's.
    IncorrectFlag,
    /// No challenge has the id.
    UnknownChallenge,
    /// The flag was right but the store refused the solve (a team solving
    /// a challenge again, an unknown user or team).
    Rejected(StoreError),
}

/// The first challenge with this id.
pub open spec fn first_challenge(challenges: Seq<Challenge>, id: i64) -> Option<Challenge>
    decreases challenges.len(),
{
    if challenges.len() == 0 {
        None
    } else if challenges[0].id == id {
        Some(challenges[0])
    } else {
        first_challenge(challenges.subrange(1, challenges.len() as int), id)
    }
}

/// The first category with this id.
pub open spec fn first_category(categories: Seq<Category>, id: i64) -> Option<Category>
    decreases categories.len(),
{
    if categories.len() == 0 {
        None
    } else if categories[0].id == id {
        Some(categories[0])
    } else {
        first_category(categories.subrange(1, categories.len() as int), id)
    }
}

/// The first challenge of the snapshot with this id.
pub fn find_challenge(data: &ChallengeData, challenge_id: i64) -> (r: Option<&Challenge>)
    ensures
        match r {
            Some(c) => first_challenge(data.challenges@, challenge_id) == Some(*c),
            None => first_challenge(data.challenges@, challenge_id) is None,
        },
{
    let mut i: usize = 0;
    assert(data.challenges@.skip(0) =~= data.challenges@);
    while i < data.challenges.len()
        invariant
            0 <= i <= data.challenges@.len(),
            first_challenge(data.challenges@, challenge_id) == first_challenge(
                data.challenges@.skip(i as int),
                challenge_id,
            ),
        decreases data.challenges@.len() - i,
    {
        let ghost rest = data.challenges@.skip(i as int);
        assert(rest[0] == data.challenges@[i as int]);
        assert(rest.subrange(1, rest.len() as int) =~= data.challenges@.skip(i + 1));
        if data.challenges[i].id == challenge_id {
            return Some(&data.challenges[i]);
        }
        i += 1;
    }
    None
}

/// The first category of the snapshot with this id.
pub fn find_category(data: &ChallengeData, category_id: i64) -> (r: Option<&Category>)
    ensures
        match r {
            Some(c) => first_category(data.categories@, category_id) == Some(*c),
            None => first_category(data.categories@, category_id) is None,
        },
{
    let mut i: usize = 0;
    assert(data.categories@.skip(0) =~= data.categories@);
    while i < data.categories.len()
        invariant
            0 <= i <= data.categories@.len(),
            first_category(data.categories@, category_id) == first_category(
                data.categories@.skip(i as int),
                category_id,
            ),
        decreases data.categories@.len() - i,
    {
        let ghost rest = data.categories@.skip(i as int);
        assert(rest[0] == data.categories@[i as int]);
        assert(rest.subrange(1, rest.len() as int) =~= data.categories@.skip(i + 1));
        if data.categories[i].id == category_id {
            return Some(&data.categories[i]);
        }
        i += 1;
    }
    None
}

/// The challenge with this id together with its category, as a challenge
/// page shows them; `None` where either does not resolve.
pub fn challenge_with_category(data: &ChallengeData, challenge_id: i64) -> (r: Option<(&Challenge, &Category)>)
    ensures
        match first_challenge(data.challenges@, challenge_id) {
            None => r is None,
            Some(c) => match first_category(data.categories@, c.category_id) {
                None => r is None,
                Some(k) => r matches Some((a, b)) && *a == c && *b == k,
            },
        },
{
    match find_challenge(data, challenge_id) {
        Some(c) => match find_category(data, c.category_id) {
            Some(k) => Some((c, k)),
            None => None,
        },
        None => None,
    }
}

/// The outcome of a submission once the flag was found right and the store
/// answered `stored`.
pub open spec fn outcome_of_solve(stored: Result<(), StoreError>) -> SubmitOutcome {
    match stored {
        Ok(()) => SubmitOutcome::Solved,
        Err(e) => SubmitOutcome::Rejected(e),
    }
}

/// What a submission decides on a snapshot: the id of the challenge to
/// record as solved, or the outcome that ends the submission there.
pub open spec fn submission_decision(data: ChallengeData, challenge_id: i64, flag: Seq<char>) -> Result<i64, SubmitOutcome> {
    match first_challenge(data.challenges@, challenge_id) {
        None => Err(SubmitOutcome::UnknownChallenge),
        Some(c) => if c.flag@ == flag {
            Ok(c.id)
        } else {
            Err(SubmitOutcome::IncorrectFlag)
        },
    }
}

/// Checks a submitted flag against the challenge with this id in a
/// snapshot: the challenge's id where the flag is right, otherwise why not.
pub fn check_submission(data: &ChallengeData, challenge_id: i64, form: &SubmitChallenge) -> (r: Result<i64, SubmitOutcome>)
    ensures
        r == submission_decision(*data, challenge_id, form.flag@),
{
    match find_challenge(data, challenge_id) {
        None => Err(SubmitOutcome::UnknownChallenge),
        Some(c) => if c.flag == form.flag {
            Ok(c.id)
        } else {
            Err(SubmitOutcome::IncorrectFlag)
        },
    }
}

/// Checks a submitted flag against the challenge with this id and, where it
/// is right, records the solve for the user's team. A failed read of the
/// store comes out as `Rejected(Unavailable)` and changes nothing; a store
/// that answers gives the outcome of `check_submission` on its snapshot,
/// or the store's own answer to the solve.
pub fn submit_flag<D: Database>(
    db: &mut D,
    user_id: i64,
    team_id: i64,
    challenge_id: i64,
    form: &SubmitChallenge,
) -> (r: SubmitOutcome)
    requires
        old(db).well_formed(),
    ensures
        final(db).well_formed(),
        final(db).challenge_snapshot() == old(db).challenge_snapshot(),
        r == SubmitOutcome::Rejected(StoreError::Unavailable) && final(db).model() == old(db).model()
            || match submission_decision(old(db).challenge_snapshot(), challenge_id, form.flag@) {
            Err(o) => r == o && final(db).model() == old(db).model(),
            Ok(id) => exists|at: i64|
                {
                    let (s, stored) = #[trigger] solve_challenge_spec(old(db).model(), user_id, team_id, id, at);
                    final(db).model() == s && r == outcome_of_solve(stored)
                },
        },
{
    let id = match db.get_challenges() {
        Ok(data) => match check_submission(data, challenge_id, form) {
            Ok(id) => id,
            Err(o) => {
                return o;
            },
        },
        Err(e) => {
            return SubmitOutcome::Rejected(e);
        },
    };
    match db.solve_challenge(user_id, team_id, id) {
        Ok(()) => SubmitOutcome::Solved,
        Err(e) => SubmitOutcome::Rejected(e),
    }
}

} // verus!
