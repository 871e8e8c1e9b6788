use std::sync::Arc;

use nonce_guess::store::commit;
use nonce_guess::store::GuessDb;
use nonce_guess::types::Guess;
use nonce_guess::types::GuessError;

fn open_store() -> GuessDb {
    let db = redb::Database::builder()
        .create_with_backend(redb::backends::InMemoryBackend::new())
        .expect("create database");
    GuessDb::new(Arc::new(db)).expect("open tables")
}

fn put_target(store: &GuessDb, height: u32, nonce: Option<u32>) -> Option<u32> {
    let mut txn = store.begin_write().expect("begin write");
    let prior = GuessDb::insert_target(&mut txn, height, nonce).expect("insert target");
    commit(txn).expect("commit");
    prior
}

fn put_guess(store: &GuessDb, height: u32, guess: Guess) -> bool {
    let mut txn = store.begin_write().expect("begin write");
    let added = GuessDb::insert_guess(&mut txn, height, guess).expect("insert guess");
    commit(txn).expect("commit");
    added
}

#[test]
fn unknown_height_has_no_target_row() {
    let store = open_store();
    let txn = store.begin_read().expect("begin read");
    assert_eq!(GuessDb::get_target_nonce(&txn, 123_456).expect("get"), None);
}

#[test]
fn second_upsert_reports_first_nonce_as_prior() {
    let store = open_store();
    assert_eq!(put_target(&store, 500, Some(11)), None);
    assert_eq!(put_target(&store, 500, Some(22)), Some(11));
    let txn = store.begin_read().expect("begin read");
    assert_eq!(
        GuessDb::get_target_nonce(&txn, 500).expect("get"),
        Some(Some(22))
    );
}

#[test]
fn unconfirmed_prior_reports_none() {
    let store = open_store();
    assert_eq!(put_target(&store, 500, None), None);
    assert_eq!(put_target(&store, 500, Some(7)), None);
    assert_eq!(put_target(&store, 500, Some(8)), Some(7));
}

#[test]
fn last_target_is_greatest_height() {
    let store = open_store();
    let txn = store.begin_read().expect("begin read");
    assert_eq!(GuessDb::get_last_target_nonce(&txn).expect("last"), None);
    drop(txn);
    put_target(&store, 300, Some(3));
    put_target(&store, 100, None);
    put_target(&store, 200, Some(2));
    let txn = store.begin_read().expect("begin read");
    assert_eq!(
        GuessDb::get_last_target_nonce(&txn).expect("last"),
        Some((300, Some(3)))
    );
}

#[test]
fn remove_target_returns_prior_and_deletes_row() {
    let store = open_store();
    put_target(&store, 900, Some(44));
    let mut txn = store.begin_write().expect("begin write");
    assert_eq!(
        GuessDb::remove_target_nonce(&mut txn, 900).expect("remove"),
        Some(44)
    );
    commit(txn).expect("commit");
    let txn = store.begin_read().expect("begin read");
    assert_eq!(GuessDb::get_target_nonce(&txn, 900).expect("get"), None);
}

#[test]
fn any_guess_without_target_is_missing_target() {
    let store = open_store();
    let txn = store.begin_read().expect("begin read");
    assert_eq!(
        GuessDb::any_guess(&txn, 777, 1),
        Err(GuessError::MissingTarget(777))
    );
}

#[test]
fn any_guess_turns_true_after_insert() {
    let store = open_store();
    put_target(&store, 650_000, None);
    let txn = store.begin_read().expect("begin read");
    assert_eq!(GuessDb::any_guess(&txn, 650_000, 42), Ok(false));
    drop(txn);
    assert!(put_guess(&store, 650_000, Guess { player: 42, nonce: 9 }));
    let txn = store.begin_read().expect("begin read");
    assert_eq!(GuessDb::any_guess(&txn, 650_000, 42), Ok(true));
    assert_eq!(GuessDb::any_guess(&txn, 650_000, 43), Ok(false));
}

#[test]
fn duplicate_guess_is_not_newly_added() {
    let store = open_store();
    put_target(&store, 10, None);
    let guess = Guess { player: 5, nonce: 77 };
    assert!(put_guess(&store, 10, guess));
    assert!(!put_guess(&store, 10, guess));
    let txn = store.begin_read().expect("begin read");
    assert_eq!(GuessDb::target_guesses(&txn, 10).expect("guesses"), vec![guess]);
}

#[test]
fn same_nonce_different_players_both_stored() {
    let store = open_store();
    put_target(&store, 11, None);
    assert!(put_guess(&store, 11, Guess { player: 1, nonce: 50 }));
    assert!(put_guess(&store, 11, Guess { player: 2, nonce: 50 }));
    let txn = store.begin_read().expect("begin read");
    assert_eq!(
        GuessDb::target_guesses(&txn, 11).expect("guesses").len(),
        2
    );
}

#[test]
fn target_guesses_come_back_ascending_by_nonce() {
    let store = open_store();
    put_target(&store, 20, None);
    put_guess(&store, 20, Guess { player: 1, nonce: 1000 });
    put_guess(&store, 20, Guess { player: 2, nonce: 5 });
    put_guess(&store, 20, Guess { player: 3, nonce: 42 });
    let txn = store.begin_read().expect("begin read");
    let guesses = GuessDb::target_guesses(&txn, 20).expect("guesses");
    let nonces: Vec<u32> = guesses.iter().map(|g| g.nonce).collect();
    assert_eq!(nonces, vec![5, 42, 1000]);
}

#[test]
fn empty_collection_for_target_without_guesses() {
    let store = open_store();
    put_target(&store, 21, None);
    let txn = store.begin_read().expect("begin read");
    assert_eq!(GuessDb::target_guesses(&txn, 21).expect("guesses"), vec![]);
}

#[test]
fn replace_target_moves_guesses_to_new_height() {
    let store = open_store();
    put_target(&store, 100, None);
    put_guess(&store, 100, Guess { player: 1, nonce: 30 });
    put_guess(&store, 100, Guess { player: 2, nonce: 10 });
    put_guess(&store, 100, Guess { player: 3, nonce: 20 });

    let mut txn = store.begin_write().expect("begin write");
    GuessDb::replace_target(&mut txn, 100, 200).expect("replace");
    commit(txn).expect("commit");

    let txn = store.begin_read().expect("begin read");
    assert_eq!(GuessDb::get_target_nonce(&txn, 100).expect("get"), None);
    assert_eq!(
        GuessDb::get_target_nonce(&txn, 200).expect("get"),
        Some(None)
    );
    assert_eq!(GuessDb::target_guesses(&txn, 100).expect("old guesses"), vec![]);
    assert_eq!(
        GuessDb::target_guesses(&txn, 200).expect("new guesses"),
        vec![
            Guess { player: 2, nonce: 10 },
            Guess { player: 3, nonce: 20 },
            Guess { player: 1, nonce: 30 },
        ]
    );
}

#[test]
fn guessing_game_end_to_end() {
    let store = open_store();
    let p1: u128 = uuid::Uuid::new_v4().as_u128();

    assert_eq!(put_target(&store, 800_000, None), None);

    let txn = store.begin_read().expect("begin read");
    assert_eq!(GuessDb::any_guess(&txn, 800_000, p1), Ok(false));
    drop(txn);

    assert!(put_guess(&store, 800_000, Guess { player: p1, nonce: 0xDEADBEEF }));

    let txn = store.begin_read().expect("begin read");
    assert_eq!(
        GuessDb::target_guesses(&txn, 800_000).expect("guesses"),
        vec![Guess { player: p1, nonce: 0xDEADBEEF }]
    );
    drop(txn);

    // The reconciliation loop resolves the block and confirms its nonce.
    put_target(&store, 800_000, Some(0xDEADBEEF));

    let txn = store.begin_read().expect("begin read");
    assert_eq!(
        GuessDb::get_target_nonce(&txn, 800_000).expect("get"),
        Some(Some(0xDEADBEEF))
    );
}

#[test]
fn reopening_the_store_is_idempotent_and_keeps_data() {
    let db = Arc::new(
        redb::Database::builder()
            .create_with_backend(redb::backends::InMemoryBackend::new())
            .expect("create database"),
    );
    let store = GuessDb::new(db.clone()).expect("first open");
    put_target(&store, 42, Some(7));
    let store_again = GuessDb::new(db).expect("second open");
    let txn = store_again.begin_read().expect("begin read");
    assert_eq!(
        GuessDb::get_target_nonce(&txn, 42).expect("get"),
        Some(Some(7))
    );
}
