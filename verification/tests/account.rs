use database::ordered_list::StoreError;
use database::orm::user::{
    choose_discriminator, credentials, email_free, free_discriminators, inserted, logged_in,
    registered, text_of, user_from_row, LoginError, NewUserError, User, UserRow,
};
use database::password::{lanes_in_bound, Password, PasswordError};
use database::snowflake::Snowflake;
use database::validation::{validate_email, validate_username};
use std::collections::HashSet;

const PEPPER: &[u8] = b"pepper";

#[test]
fn usernames_are_three_to_thirty_two_bytes_of_letters_digits_and_underscores() {
    assert!(validate_username("abc"));
    assert!(validate_username("user_name_42"));
    assert!(validate_username("___"));
    assert!(validate_username(&"a".repeat(32)));
    assert!(validate_username("\u{e9}\u{e9}"));
    assert!(!validate_username("ab"));
    assert!(!validate_username(""));
    assert!(!validate_username(&"a".repeat(33)));
    assert!(!validate_username(&"\u{e9}".repeat(17)));
    assert!(!validate_username("user name"));
    assert!(!validate_username("user-name"));
    assert!(!validate_username("user@name"));
}

#[test]
fn email_addresses_are_three_to_320_bytes_with_an_at_sign() {
    assert!(validate_email("a@b"));
    assert!(validate_email("someone@example.com"));
    assert!(validate_email(&format!("{}@", "a".repeat(319))));
    assert!(!validate_email("a@"));
    assert!(!validate_email("abc"));
    assert!(!validate_email(""));
    assert!(!validate_email(&format!("{}@", "a".repeat(320))));
}

#[test]
fn passwords_are_eight_to_sixty_four_bytes() {
    assert!(matches!(Password::new("1234567").validate("u", "e"), Err(PasswordError::TooShort)));
    assert!(matches!(Password::new("").validate("u", "e"), Err(PasswordError::TooShort)));
    assert!(Password::new("12345678").validate("u", "e").is_ok());
    assert!(Password::new(&"x".repeat(64)).validate("u", "e").is_ok());
    assert!(matches!(
        Password::new(&"x".repeat(65)).validate("u", "e"),
        Err(PasswordError::TooLong)
    ));
    assert!(Password::new("\u{e9}\u{e9}\u{e9}\u{e9}").validate("u", "e").is_ok());
}

#[test]
fn hash_verifies_its_password_only() {
    let password = Password::new("correct horse");
    let phc = password.generate(PEPPER).unwrap();
    assert!(phc.starts_with("$argon2id$v=19$m=15000,t=2,p=1$"));
    assert_ne!(phc, "correct horse");
    assert_eq!(password.verify(&phc, PEPPER), Some(true));
    assert_eq!(Password::new("wrong horse").verify(&phc, PEPPER), Some(false));
    assert_eq!(password.verify(&phc, b"other pepper"), Some(false));
    assert_ne!(password.generate(PEPPER).unwrap(), phc);
}

#[test]
fn hash_that_names_too_many_lanes_gives_no_verdict() {
    let password = Password::new("correct horse");
    let phc = password.generate(PEPPER).unwrap();
    assert!(lanes_in_bound(&phc));
    assert!(lanes_in_bound(""));
    assert!(lanes_in_bound("p"));
    assert!(lanes_in_bound("p="));
    assert!(lanes_in_bound("$argon2id$v=19$m=15000,t=2,p=16777215$c2FsdHNhbHQ$aGFzaA"));
    assert!(lanes_in_bound("p=0000000000000000000016777215"));
    assert!(lanes_in_bound("xp=1,p=2,m=99999999999"));
    for lanes in ["16777216", "536870912", "4294967295", "99999999999999999999999999"] {
        let asked = phc.replace("p=1$", &format!("p={}$", lanes));
        assert_ne!(asked, phc);
        assert!(!lanes_in_bound(&asked), "{}", lanes);
        assert_eq!(password.verify(&asked, PEPPER), None, "{}", lanes);
    }
    assert!(!lanes_in_bound("p=1,p=16777216"));
    assert!(!lanes_in_bound("p=16777216x"));
    let fewer = phc.replace("p=1$", "p=2$");
    assert_eq!(password.verify(&fewer, PEPPER), Some(false));
}

#[test]
fn text_that_is_no_hash_gives_no_verdict() {
    assert_eq!(Password::new("correct horse").verify("correct horse", PEPPER), None);
    assert_eq!(Password::new("correct horse").verify("", PEPPER), None);
}

#[test]
fn free_discriminators_are_those_not_taken() {
    let free = free_discriminators(&vec![]);
    assert_eq!(free, (0..10000).collect::<HashSet<i16>>());
    let free = free_discriminators(&vec![0, 5, 5, 9999, -1, 10000, 12345]);
    assert_eq!(free.len(), 9997);
    assert_eq!(free, (1..9999).filter(|d| *d != 5).collect::<HashSet<i16>>());
    assert!(!free.contains(&0) && !free.contains(&5) && !free.contains(&9999));
    assert!(free.contains(&1) && free.contains(&9998));
    let all: Vec<i16> = (0..10000).collect();
    assert!(free_discriminators(&all).is_empty());
}

#[test]
fn chosen_discriminator_is_free() {
    let taken: Vec<i16> = (0..9990).collect();
    for _ in 0..50 {
        let d = choose_discriminator(&taken).unwrap();
        assert!((9990..10000).contains(&d));
    }
    let all_but_one: Vec<i16> = (0..10000).filter(|d| *d != 4321).collect();
    assert_eq!(choose_discriminator(&all_but_one), Ok(4321));
    let all: Vec<i16> = (0..10000).collect();
    assert_eq!(choose_discriminator(&all), Err(NewUserError::AllDiscriminatorsUsed));
}

fn row() -> UserRow {
    UserRow {
        id: 4_196_353,
        username: "someone".to_string(),
        discrim: 42,
        profile_img_id: Some(2_097_152),
        accent_color: Some("#fff".to_string()),
        pronouns: None,
        bio: Some("hello".to_string()),
    }
}

fn some_user() -> User {
    user_from_row(&row())
}

#[test]
fn user_is_read_from_its_row() {
    let user = some_user();
    assert_eq!((user.id.timestamp, user.id.machine_id, user.id.increment), (2, 1, 1));
    assert_eq!(user.username, "someone");
    assert_eq!(user.discrim, 42);
    assert_eq!(user.profile_img_id, Some(Snowflake { timestamp: 1, machine_id: 0, increment: 0 }));
    assert_eq!(user.accent_color.as_deref(), Some("#fff"));
    assert_eq!(user.pronouns, None);
    assert_eq!(user.bio.as_deref(), Some("hello"));
    assert_eq!(text_of(&Some("x".to_string())), Some("x".to_string()));
    assert_eq!(text_of(&None), None);
}

#[test]
fn registering_is_decided_from_what_the_store_finds() {
    assert_eq!(email_free(Some(false)), Ok(()));
    assert_eq!(email_free(Some(true)), Err(NewUserError::EmailTaken));
    assert_eq!(email_free(None), Err(NewUserError::EmailTaken));
    assert_eq!(inserted(1), Ok(()));
    assert_eq!(inserted(0), Err(NewUserError::NotInserted));
    assert_eq!(inserted(3), Err(NewUserError::NotInserted));
    assert_eq!(registered(Some(some_user())).unwrap().username, "someone");
    assert!(matches!(registered(None), Err(NewUserError::UserNotFound)));
    let failed = NewUserError::DatabaseError(StoreError::Unavailable);
    assert_ne!(failed, NewUserError::NotInserted);
}

#[test]
fn logging_in_is_decided_from_what_the_store_finds() {
    assert_eq!(credentials(true, Some(true)), Ok(()));
    assert_eq!(credentials(true, Some(false)), Err(LoginError::InvalidCredentials));
    assert_eq!(credentials(true, None), Err(LoginError::InvalidCredentials));
    assert_eq!(credentials(false, Some(true)), Err(LoginError::InvalidCredentials));
    assert_eq!(logged_in(Some(some_user())).unwrap().discrim, 42);
    assert!(matches!(logged_in(None), Err(LoginError::UserNotFound)));
}
