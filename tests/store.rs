use std::collections::HashMap;

use rhombus::{
    Author, Category, Challenge, ChallengeData, Database, MemoryDatabase, StoreError,
};

fn challenge(id: i64, category_id: i64, flag: &str) -> Challenge {
    Challenge {
        id,
        name: format!("challenge {}", id),
        description: String::from("find the flag"),
        category_id,
        healthy: true,
        points: 100,
        solves: 0,
        author_id: 1,
        flag: flag.to_string(),
    }
}

fn sample_data() -> ChallengeData {
    ChallengeData {
        challenges: vec![challenge(1, 10, "flag{one}"), challenge(2, 20, "flag{two}")],
        categories: vec![
            Category { id: 10, name: String::from("web"), color: String::from("#f00") },
            Category { id: 20, name: String::from("pwn"), color: String::from("#0f0") },
        ],
        authors: HashMap::from([(
            1,
            Author {
                name: String::from("mbund"),
                avatar_url: String::from("https://example.com/a.png"),
                discord_id: String::from("42"),
            },
        )]),
    }
}

fn store() -> MemoryDatabase {
    MemoryDatabase::new(sample_data()).unwrap()
}

#[test]
fn migrate_is_a_no_op() {
    let db = store();
    assert_eq!(db.migrate(), Ok(()));
    assert_eq!(db.migrate(), Ok(()));
}

#[test]
fn upsert_same_identity_keeps_id_and_takes_latest_profile() {
    let mut db = store();
    let first = db.upsert_user("alice", "a@example.com", "a.png", "1001").unwrap();
    let second = db.upsert_user("alice2", "b@example.com", "b.png", "1001").unwrap();
    assert_eq!(first, second);
    let user = db.get_user_from_id(first).unwrap();
    assert_eq!(user.name, "alice2");
    assert_eq!(user.email, "b@example.com");
    assert_eq!(user.avatar, "b.png");
    assert_eq!(user.discord_id, "1001");
}

#[test]
fn upsert_new_identity_gets_new_id() {
    let mut db = store();
    let a = db.upsert_user("alice", "a@example.com", "a.png", "1001").unwrap();
    let b = db.upsert_user("bob", "b@example.com", "b.png", "1002").unwrap();
    assert_eq!(a, 1);
    assert_eq!(b, 2);
    assert_eq!(db.get_user_from_id(b).unwrap().team_id, None);
}

#[test]
fn unknown_user_is_not_found() {
    let db = store();
    assert!(matches!(db.get_user_from_id(1), Err(StoreError::NotFound)));
    assert!(matches!(db.get_user_from_id(0), Err(StoreError::NotFound)));
}

#[test]
fn create_team_makes_founder_the_owner() {
    let mut db = store();
    let alice = db.upsert_user("alice", "a@example.com", "a.png", "1001").unwrap();
    let team = db.create_team(alice, "red", String::from("tok-red")).unwrap();
    assert_eq!(db.get_user_from_id(alice).unwrap().team_id, Some(team));
    let snapshot = db.get_team_from_id(team).unwrap();
    assert_eq!(snapshot.id, team);
    assert_eq!(snapshot.name, "red");
    assert_eq!(snapshot.invite_token, "tok-red");
    assert_eq!(snapshot.users.len(), 1);
    let member = &snapshot.users[&alice];
    assert_eq!(member.name, "alice");
    assert_eq!(member.avatar_url, "a.png");
    assert!(member.is_team_owner);
    assert!(snapshot.solves.is_empty());
}

#[test]
fn create_team_errors() {
    let mut db = store();
    assert_eq!(db.create_team(7, "x", String::from("t")), Err(StoreError::NotFound));
    let alice = db.upsert_user("alice", "a@example.com", "a.png", "1001").unwrap();
    let bob = db.upsert_user("bob", "b@example.com", "b.png", "1002").unwrap();
    db.create_team(alice, "red", String::from("tok")).unwrap();
    assert_eq!(db.create_team(alice, "again", String::from("other")), Err(StoreError::TeamMismatch));
    assert_eq!(db.create_team(bob, "blue", String::from("tok")), Err(StoreError::TokenInUse));
}

#[test]
fn add_user_first_join_and_transfer() {
    let mut db = store();
    let alice = db.upsert_user("alice", "a@example.com", "a.png", "1001").unwrap();
    let bob = db.upsert_user("bob", "b@example.com", "b.png", "1002").unwrap();
    let carol = db.upsert_user("carol", "c@example.com", "c.png", "1003").unwrap();
    let red = db.create_team(alice, "red", String::from("tok-red")).unwrap();
    let blue = db.create_team(carol, "blue", String::from("tok-blue")).unwrap();
    assert_eq!(db.add_user_to_team(bob, red, None), Ok(()));
    assert_eq!(db.add_user_to_team(bob, blue, Some(red)), Ok(()));
    assert_eq!(db.get_user_from_id(bob).unwrap().team_id, Some(blue));
    let snapshot = db.get_team_from_id(blue).unwrap();
    assert_eq!(snapshot.users.len(), 2);
    assert!(!snapshot.users[&bob].is_team_owner);
    assert!(snapshot.users[&carol].is_team_owner);
    assert!(!snapshot.users.contains_key(&alice));
}

#[test]
fn add_user_with_stale_old_team_fails_and_changes_nothing() {
    let mut db = store();
    let alice = db.upsert_user("alice", "a@example.com", "a.png", "1001").unwrap();
    let bob = db.upsert_user("bob", "b@example.com", "b.png", "1002").unwrap();
    let carol = db.upsert_user("carol", "c@example.com", "c.png", "1003").unwrap();
    let red = db.create_team(alice, "red", String::from("tok-red")).unwrap();
    let blue = db.create_team(carol, "blue", String::from("tok-blue")).unwrap();
    db.add_user_to_team(bob, red, None).unwrap();
    assert_eq!(db.add_user_to_team(bob, blue, Some(blue)), Err(StoreError::TeamMismatch));
    assert_eq!(db.add_user_to_team(bob, blue, None), Err(StoreError::TeamMismatch));
    assert_eq!(db.get_user_from_id(bob).unwrap().team_id, Some(red));
    assert_eq!(db.add_user_to_team(bob, 99, Some(red)), Err(StoreError::NotFound));
    assert_eq!(db.get_user_from_id(bob).unwrap().team_id, Some(red));
}

#[test]
fn second_solve_of_a_challenge_is_a_duplicate() {
    let mut db = store();
    let alice = db.upsert_user("alice", "a@example.com", "a.png", "1001").unwrap();
    let bob = db.upsert_user("bob", "b@example.com", "b.png", "1002").unwrap();
    let red = db.create_team(alice, "red", String::from("tok-red")).unwrap();
    db.add_user_to_team(bob, red, None).unwrap();
    assert_eq!(db.solve_challenge_at(alice, red, 1, 1_700_000_000), Ok(()));
    assert_eq!(db.solve_challenge_at(bob, red, 1, 1_700_000_100), Err(StoreError::AlreadySolved));
    assert_eq!(db.solve_challenge_at(alice, red, 1, 1_700_000_200), Err(StoreError::AlreadySolved));
    let snapshot = db.get_team_from_id(red).unwrap();
    assert_eq!(snapshot.solves.len(), 1);
    assert_eq!(snapshot.solves[&1].user_id, alice);
    assert_eq!(snapshot.solves[&1].solved_at, 1_700_000_000);
    assert_eq!(db.solve_challenge_at(bob, red, 2, 1_700_000_300), Ok(()));
    assert_eq!(db.get_team_from_id(red).unwrap().solves.len(), 2);
}

#[test]
fn solve_with_unknown_team_is_not_found() {
    let mut db = store();
    let alice = db.upsert_user("alice", "a@example.com", "a.png", "1001").unwrap();
    assert_eq!(db.solve_challenge_at(alice, 3, 1, 0), Err(StoreError::NotFound));
    assert_eq!(db.solve_challenge_at(9, 1, 1, 0), Err(StoreError::NotFound));
}

#[test]
fn solve_now_stamps_the_current_time() {
    let mut db = store();
    let alice = db.upsert_user("alice", "a@example.com", "a.png", "1001").unwrap();
    let red = db.create_team(alice, "red", String::from("tok-red")).unwrap();
    assert_eq!(db.solve_challenge_now(alice, red, 2), Ok(()));
    let snapshot = db.get_team_from_id(red).unwrap();
    assert!(snapshot.solves[&2].solved_at > 1_600_000_000);
    assert_eq!(db.solve_challenge_now(alice, red, 2), Err(StoreError::AlreadySolved));
}

#[test]
fn rolled_token_resolves_and_previous_does_not() {
    let mut db = store();
    let alice = db.upsert_user("alice", "a@example.com", "a.png", "1001").unwrap();
    let red = db.create_team(alice, "red", String::from("tok-old")).unwrap();
    let meta = db.get_team_meta_from_invite_token("tok-old").unwrap().unwrap();
    assert_eq!(meta.id, red);
    let token = db.roll_invite_token(red, String::from("tok-new")).unwrap();
    assert_eq!(token, "tok-new");
    let meta = db.get_team_meta_from_invite_token(&token).unwrap().unwrap();
    assert_eq!(meta.id, red);
    assert_eq!(meta.name, "red");
    assert!(db.get_team_meta_from_invite_token("tok-old").unwrap().is_none());
    assert_eq!(db.get_team_from_id(red).unwrap().invite_token, "tok-new");
}

#[test]
fn roll_to_a_token_in_use_is_refused() {
    let mut db = store();
    let alice = db.upsert_user("alice", "a@example.com", "a.png", "1001").unwrap();
    let carol = db.upsert_user("carol", "c@example.com", "c.png", "1003").unwrap();
    let red = db.create_team(alice, "red", String::from("tok-red")).unwrap();
    db.create_team(carol, "blue", String::from("tok-blue")).unwrap();
    assert_eq!(db.roll_invite_token(red, String::from("tok-blue")), Err(StoreError::TokenInUse));
    assert_eq!(db.roll_invite_token(red, String::from("tok-red")), Err(StoreError::TokenInUse));
    assert_eq!(db.roll_invite_token(5, String::from("x")), Err(StoreError::NotFound));
    assert_eq!(db.get_team_from_id(red).unwrap().invite_token, "tok-red");
}

#[test]
fn set_team_name_renames() {
    let mut db = store();
    let alice = db.upsert_user("alice", "a@example.com", "a.png", "1001").unwrap();
    let red = db.create_team(alice, "red", String::from("tok-red")).unwrap();
    assert_eq!(db.set_team_name(red, "crimson"), Ok(()));
    assert_eq!(db.get_team_from_id(red).unwrap().name, "crimson");
    assert_eq!(db.set_team_name(2, "x"), Err(StoreError::NotFound));
}

#[test]
fn unknown_team_is_not_found() {
    let db = store();
    assert!(matches!(db.get_team_from_id(1), Err(StoreError::NotFound)));
    assert!(db.get_team_meta_from_invite_token("nothing").unwrap().is_none());
}

#[test]
fn challenges_snapshot_categories_resolve() {
    let db = store();
    let data = db.get_challenges().unwrap();
    assert_eq!(data.challenges.len(), 2);
    for c in &data.challenges {
        assert!(data.categories.iter().any(|k| k.id == c.category_id));
    }
    assert_eq!(data.authors[&1].name, "mbund");
}

#[test]
fn store_refuses_dangling_category() {
    let mut data = sample_data();
    data.challenges.push(challenge(3, 30, "flag{three}"));
    assert!(!rhombus::categories_resolve(&data));
    assert!(MemoryDatabase::new(data).is_none());
    assert!(rhombus::categories_resolve(&sample_data()));
}

#[test]
fn insert_track_succeeds() {
    let mut db = store();
    assert_eq!(db.insert_track("127.0.0.1", Some("curl/8"), None, 3), Ok(()));
    assert_eq!(db.insert_track("::1", None, Some(1), 1), Ok(()));
}

fn join_and_solve<D: Database>(db: &mut D, user: i64, team: i64, challenge: i64) -> Result<(), StoreError> {
    db.add_user_to_team(user, team, None)?;
    db.solve_challenge(user, team, challenge)
}

#[test]
fn storage_contract_through_the_trait() {
    let mut db = store();
    let alice = db.upsert_user("alice", "a@example.com", "a.png", "1001").unwrap();
    let bob = db.upsert_user("bob", "b@example.com", "b.png", "1002").unwrap();
    let red = db.create_team(alice, "red", String::from("tok-red")).unwrap();
    assert_eq!(join_and_solve(&mut db, bob, red, 1), Ok(()));
    assert_eq!(Database::solve_challenge(&mut db, alice, red, 1), Err(StoreError::AlreadySolved));
    assert_eq!(Database::migrate(&db), Ok(()));
    assert_eq!(Database::get_team_from_id(&db, red).unwrap().solves[&1].user_id, bob);
}

#[test]
fn owner_cannot_leave_their_team() {
    let mut db = store();
    let alice = db.upsert_user("alice", "a@example.com", "a.png", "1001").unwrap();
    let carol = db.upsert_user("carol", "c@example.com", "c.png", "1003").unwrap();
    let red = db.create_team(alice, "red", String::from("tok-red")).unwrap();
    let blue = db.create_team(carol, "blue", String::from("tok-blue")).unwrap();
    assert_eq!(db.add_user_to_team(alice, blue, Some(red)), Err(StoreError::OwnerCannotLeave));
    assert_eq!(db.get_user_from_id(alice).unwrap().team_id, Some(red));
    let snapshot = db.get_team_from_id(red).unwrap();
    assert_eq!(snapshot.users.values().filter(|u| u.is_team_owner).count(), 1);
    assert_eq!(db.add_user_to_team(alice, red, Some(red)), Ok(()));
}

#[test]
fn store_refuses_inconsistent_snapshots() {
    let mut dup_challenge = sample_data();
    dup_challenge.challenges.push(challenge(1, 10, "flag{again}"));
    assert!(!rhombus::snapshot_consistent(&dup_challenge));
    assert!(MemoryDatabase::new(dup_challenge).is_none());

    let mut dup_category = sample_data();
    dup_category.categories.push(Category { id: 10, name: String::from("x"), color: String::new() });
    assert!(!rhombus::snapshot_consistent(&dup_category));
    assert!(MemoryDatabase::new(dup_category).is_none());

    let mut no_author = sample_data();
    no_author.challenges[0].author_id = 9;
    assert!(!rhombus::authors_resolve(&no_author));
    assert!(MemoryDatabase::new(no_author).is_none());

    assert!(rhombus::snapshot_consistent(&sample_data()));
}
