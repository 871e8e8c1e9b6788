use nonce_guess::auth::LoginForm;
use nonce_guess::auth::RegisterForm;
use nonce_guess::reconcile::plan_tick;
use nonce_guess::reconcile::TickAction;
use nonce_guess::types::Guess;
use nonce_guess::types::GuessError;
use nonce_guess::types::TargetError;
use nonce_guess::web::guess_prompt_query;
use nonce_guess::web::guess_table_rows;
use nonce_guess::web::plan_guess_form;
use nonce_guess::web::plan_target_form;
use nonce_guess::web::sort_guesses_by_target_diff;
use nonce_guess::web::sort_rows_for_target;
use nonce_guess::web::u32_to_hex;
use nonce_guess::web::validate_guess;
use nonce_guess::web::GuessForm;
use nonce_guess::web::GuessTableData;
use nonce_guess::web::TargetAction;

#[test]
fn validate_guess_accepts_hex_digits() {
    assert_eq!(validate_guess(String::from("deadbeef")), Ok(0xDEADBEEF));
    assert_eq!(validate_guess(String::from("DEADBEEF")), Ok(0xDEADBEEF));
    assert_eq!(validate_guess(String::from("0")), Ok(0));
    assert_eq!(validate_guess(String::from("ffffffff")), Ok(u32::MAX));
    assert_eq!(validate_guess(String::from("+1f")), Ok(0x1F));
}

#[test]
fn validate_guess_rejects_bad_texts() {
    for bad in ["", "+", "xyz", "12g4", "123456789", "deadbeef1", " 1f", "1f ", "-1"] {
        assert_eq!(
            validate_guess(String::from(bad)),
            Err(GuessError::InvalidNonce(String::from(bad)))
        );
    }
}

#[test]
fn target_form_without_target_creates_one() {
    assert_eq!(plan_target_form(None, 500), Ok(TargetAction::Create(500)));
}

#[test]
fn target_form_after_confirmation_creates_fresh_target() {
    assert_eq!(
        plan_target_form(Some((400, Some(9))), 500),
        Ok(TargetAction::Create(500))
    );
}

#[test]
fn target_form_rejects_height_not_above_confirmed() {
    assert_eq!(
        plan_target_form(Some((400, Some(9))), 400),
        Err(TargetError::InvalidHeight(400))
    );
    assert_eq!(
        plan_target_form(Some((400, Some(9))), 300),
        Err(TargetError::InvalidHeight(300))
    );
}

#[test]
fn target_form_migrates_unconfirmed_target() {
    assert_eq!(
        plan_target_form(Some((400, None)), 500),
        Ok(TargetAction::Replace(400, 500))
    );
}

#[test]
fn target_form_rejects_height_not_above_unconfirmed() {
    assert_eq!(
        plan_target_form(Some((400, None)), 400),
        Err(TargetError::InvalidHeight(400))
    );
}

#[test]
fn guess_form_without_target_stores_nothing() {
    let form = GuessForm { guess: String::from("1f") };
    assert_eq!(plan_guess_form(None, Some(1), form), Ok(None));
}

#[test]
fn guess_form_on_confirmed_target_is_rejected_with_nonce() {
    let form = GuessForm { guess: String::from("1f") };
    assert_eq!(
        plan_guess_form(Some((500, Some(77))), Some(1), form),
        Err(GuessError::ConfirmedTarget(77))
    );
}

#[test]
fn guess_form_stores_parsed_guess_for_player() {
    let form = GuessForm { guess: String::from("deadbeef") };
    assert_eq!(
        plan_guess_form(Some((500, None)), Some(9), form),
        Ok(Some((500, Guess { player: 9, nonce: 0xDEADBEEF })))
    );
}

#[test]
fn guess_form_with_bad_text_reports_invalid_nonce() {
    let form = GuessForm { guess: String::from("nope") };
    assert_eq!(
        plan_guess_form(Some((500, None)), Some(9), form),
        Err(GuessError::InvalidNonce(String::from("nope")))
    );
}

#[test]
fn guess_form_without_player_stores_nothing() {
    let form = GuessForm { guess: String::from("1f") };
    assert_eq!(plan_guess_form(Some((500, None)), None, form), Ok(None));
}

#[test]
fn hex_rendering_matches_lowercase_hex() {
    assert_eq!(u32_to_hex(0), "0");
    assert_eq!(u32_to_hex(10), "a");
    assert_eq!(u32_to_hex(26), "1a");
    assert_eq!(u32_to_hex(0xDEADBEEF), "deadbeef");
    assert_eq!(u32_to_hex(u32::MAX), "ffffffff");
    assert_eq!(u32_to_hex(0x100), "100");
}

fn row(name: &str, decimal: u32) -> GuessTableData {
    GuessTableData {
        name: String::from(name),
        hex: u32_to_hex(decimal),
        decimal,
    }
}

#[test]
fn table_rows_carry_name_hex_and_decimal() {
    let guesses = vec![
        Guess { player: 1, nonce: 0xBEEF },
        Guess { player: 2, nonce: 3 },
    ];
    let players = vec![
        (1u128, String::from("alice")),
        (2u128, String::from("bob")),
    ];
    let rows = guess_table_rows(&guesses, &players);
    assert_eq!(rows.len(), 2);
    assert_eq!(rows[0].name, "alice");
    assert_eq!(rows[0].hex, "beef");
    assert_eq!(rows[0].decimal, 0xBEEF);
    assert_eq!(rows[1].name, "bob");
    assert_eq!(rows[1].hex, "3");
    assert_eq!(rows[1].decimal, 3);
}

#[test]
fn diff_sort_puts_closest_guess_first() {
    let mut rows = vec![row("a", 100), row("b", 90), row("c", 111)];
    sort_guesses_by_target_diff(&mut rows, 101);
    let order: Vec<&str> = rows.iter().map(|r| r.name.as_str()).collect();
    assert_eq!(order, vec!["a", "c", "b"]);
}

#[test]
fn confirmed_target_sorts_by_distance() {
    let mut rows = vec![row("a", 5), row("b", 42), row("c", 1000)];
    sort_rows_for_target(&mut rows, Some((500, Some(40))));
    let order: Vec<u32> = rows.iter().map(|r| r.decimal).collect();
    assert_eq!(order, vec![42, 5, 1000]);
}

#[test]
fn open_target_sorts_by_player_name() {
    let mut rows = vec![row("carol", 1), row("alice", 2), row("bob", 3)];
    sort_rows_for_target(&mut rows, Some((500, None)));
    let order: Vec<&str> = rows.iter().map(|r| r.name.as_str()).collect();
    assert_eq!(order, vec!["alice", "bob", "carol"]);
}

#[test]
fn tick_fetches_only_for_unconfirmed_target() {
    assert_eq!(plan_tick(None), TickAction::Idle);
    assert_eq!(plan_tick(Some((500, Some(1)))), TickAction::Idle);
    assert_eq!(plan_tick(Some((500, None))), TickAction::FetchHash(500));
}

#[test]
fn login_form_hands_back_credentials() {
    let form = LoginForm {
        username: String::from("satoshi"),
        password: String::from("SECRET-REDACTED"),
        next: None,
    };
    let (user, pass) = form.credentials();
    assert_eq!(user, "satoshi");
    assert_eq!(pass, "SECRET-REDACTED");
}

#[test]
fn register_form_hands_back_new_credentials() {
    let form = RegisterForm {
        new_username: String::from("hal"),
        new_password: String::from("SECRET-REDACTED"),
        confirm_password: String::from("SECRET-REDACTED"),
        next: Some(String::from("/")),
    };
    let (user, pass) = form.credentials();
    assert_eq!(user, "hal");
    assert_eq!(pass, "SECRET-REDACTED");
}

#[test]
fn guess_prompt_needs_player_and_open_target() {
    assert_eq!(guess_prompt_query(Some(5), Some((100, None))), Some((100, 5)));
    assert_eq!(guess_prompt_query(None, Some((100, None))), None);
    assert_eq!(guess_prompt_query(Some(5), Some((100, Some(1)))), None);
    assert_eq!(guess_prompt_query(Some(5), None), None);
}
