use std::collections::HashMap;

use rhombus::{
    challenge_with_category, check_submission, find_category, find_challenge, submit_flag, Author, Category,
    Challenge, ChallengeData, MemoryDatabase, StoreError, SubmitChallenge, SubmitOutcome,
};

fn challenge(id: i64, category_id: i64, flag: &str) -> Challenge {
    Challenge {
        id,
        name: format!("challenge {}", id),
        description: String::new(),
        category_id,
        healthy: true,
        points: 50,
        solves: 0,
        author_id: 1,
        flag: flag.to_string(),
    }
}

fn data() -> ChallengeData {
    ChallengeData {
        challenges: vec![challenge(1, 10, "flag{a}"), challenge(2, 10, "flag{b}")],
        categories: vec![Category { id: 10, name: String::from("misc"), color: String::from("blue") }],
        authors: HashMap::from([(
            1,
            Author { name: String::from("a"), avatar_url: String::new(), discord_id: String::from("1") },
        )]),
    }
}

#[test]
fn find_challenge_and_category_by_id() {
    let d = data();
    assert_eq!(find_challenge(&d, 2).unwrap().flag, "flag{b}");
    assert!(find_challenge(&d, 3).is_none());
    assert_eq!(find_category(&d, 10).unwrap().name, "misc");
    assert!(find_category(&d, 11).is_none());
    let (c, k) = challenge_with_category(&d, 1).unwrap();
    assert_eq!(c.id, 1);
    assert_eq!(k.id, 10);
    assert!(challenge_with_category(&d, 5).is_none());
}

#[test]
fn submit_flag_outcomes() {
    let mut db = MemoryDatabase::new(data()).unwrap();
    let alice = db.upsert_user("alice", "a@example.com", "a.png", "1001").unwrap();
    let team = db.create_team(alice, "red", String::from("tok")).unwrap();
    let wrong = SubmitChallenge { flag: String::from("flag{nope}") };
    let right = SubmitChallenge { flag: String::from("flag{a}") };
    assert_eq!(submit_flag(&mut db, alice, team, 1, &wrong), SubmitOutcome::IncorrectFlag);
    assert!(db.get_team_from_id(team).unwrap().solves.is_empty());
    assert_eq!(submit_flag(&mut db, alice, team, 9, &right), SubmitOutcome::UnknownChallenge);
    assert_eq!(submit_flag(&mut db, alice, team, 1, &right), SubmitOutcome::Solved);
    assert_eq!(
        submit_flag(&mut db, alice, team, 1, &right),
        SubmitOutcome::Rejected(StoreError::AlreadySolved)
    );
    assert_eq!(db.get_team_from_id(team).unwrap().solves.len(), 1);
    assert_eq!(
        submit_flag(&mut db, alice, 4, 2, &SubmitChallenge { flag: String::from("flag{b}") }),
        SubmitOutcome::Rejected(StoreError::NotFound)
    );
}

#[test]
fn check_submission_decides_on_the_snapshot() {
    let d = data();
    let right = SubmitChallenge { flag: String::from("flag{b}") };
    let wrong = SubmitChallenge { flag: String::from("flag{a}") };
    assert_eq!(check_submission(&d, 2, &right), Ok(2));
    assert_eq!(check_submission(&d, 2, &wrong), Err(SubmitOutcome::IncorrectFlag));
    assert_eq!(check_submission(&d, 7, &right), Err(SubmitOutcome::UnknownChallenge));
}
