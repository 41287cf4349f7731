use site_auth::codec::encode_record;
use site_auth::error::{LoginError, RegisterError};
use site_auth::sessions::TOKEN_LEN;
use site_auth::username::UserNameError;
use site_auth::users::{admin_user_exists, check_password, is_admin, NewUser, Users, ADMIN_USR_ID};

const ADMIN_HASH: &str = "$argon2id$v=19$m=4096,t=3,p=1$DkiuneDgPzT0wJDiNly1TQ$TBPaDhAzZNnvSEQVHHy5yd/Ih34jwHkRJDTP9Yy+KG5gpLvfC/siR9NFJ9GK";
const VIEWER_HASH: &str = "$argon2id$v=19$m=4096,t=3,p=1$M92l6PXdp3JfUtLd5mfD2Q$DxDiy3w54NcvTvxrzT4JbM8zreWimW8HMCit1vZ+Yczes9u8Yu0pVBGoRCxt";

/// Registers a user the way the server does, with `file` standing for the
/// credentials file; returns the session token.
fn register(users: &mut Users, file: &mut String, name: &str, password: &str) -> Result<Option<String>, RegisterError> {
    let user = users.prepare_user(name, password)?;
    file.push_str(user.record_line());
    Ok(users.commit_user(user))
}

#[test]
fn add_user() {
    let mut users = Users::new();
    let mut file = String::new();
    register(&mut users, &mut file, "admin", "password").unwrap();
    register(&mut users, &mut file, "viewer", "password").unwrap();
    assert!(file.starts_with("$admin$"));
    assert_eq!(file.lines().count(), 2);
    let reloaded = Users::load_str(&file).unwrap();
    assert!(reloaded.store.contains("admin"));
    assert!(reloaded.store.contains("viewer"));
}

#[test]
fn register_then_login() {
    let mut users = Users::new();
    let mut file = String::new();
    let token = register(&mut users, &mut file, "alice", "hunter2").unwrap().unwrap();
    assert_eq!(token.len(), TOKEN_LEN);
    assert_eq!(users.validate_session(&token), Some("alice".to_string()));
    assert_eq!(users.check_login("alice", "hunter2"), Ok(()));
    assert_eq!(users.check_login("alice", "hunter3"), Err(LoginError::WrongPassword));
    let second = users.verify_user("alice", "hunter2").unwrap().unwrap();
    assert_ne!(second, token);
    assert_eq!(users.validate_session(&second), Some("alice".to_string()));
    assert!(matches!(users.verify_user("alice", "nope"), Err(LoginError::WrongPassword)));
}

#[test]
fn second_registration_of_a_name_is_refused() {
    let mut users = Users::new();
    let mut file = String::new();
    register(&mut users, &mut file, "bob", "one").unwrap();
    let before = file.clone();
    assert!(matches!(register(&mut users, &mut file, "bob", "two"), Err(RegisterError::ExistingUser)));
    assert_eq!(file, before);
    assert_eq!(file.lines().count(), 1);
    assert_eq!(users.check_login("bob", "one"), Ok(()));
}

#[test]
fn bad_name_is_refused_before_hashing() {
    let mut users = Users::new();
    let mut file = String::new();
    let r = register(&mut users, &mut file, "bad name", "pw");
    assert!(matches!(r, Err(RegisterError::InvalidName(UserNameError::Char(' ')))));
    assert!(file.is_empty());
    assert!(!users.store.contains("bad name"));
    assert!(matches!(users.prepare_user("", "pw"), Err(RegisterError::InvalidName(UserNameError::Empty))));
}

#[test]
fn non_ascii_password_is_refused() {
    let mut users = Users::new();
    assert!(matches!(users.prepare_user("dora", "pässword"), Err(RegisterError::NonAsciiPassword)));
    let mut file = String::new();
    register(&mut users, &mut file, "dora", "plain").unwrap();
    assert_eq!(users.check_login("dora", "pässword"), Err(LoginError::NonAsciiPassword));
}

#[test]
fn loaded_file_scenario() {
    let file = format!("$admin$113{ADMIN_HASH}\n$viewer$113{VIEWER_HASH}\n");
    let mut users = Users::load_str(&file).unwrap();
    let mut names = users.store.usernames();
    names.sort();
    assert_eq!(names, vec!["admin".to_string(), "viewer".to_string()]);
    assert!(matches!(users.verify_user("admin", "wrong"), Err(LoginError::WrongPassword)));
    assert!(matches!(users.verify_user("nobody", "x"), Err(LoginError::UnknownUser)));
    assert!(admin_user_exists(&users));
}

#[test]
fn login_with_correct_password_after_reload() {
    let mut users = Users::new();
    let mut file = String::new();
    register(&mut users, &mut file, ADMIN_USR_ID, "correct horse").unwrap();
    file.push_str(&encode_record("viewer", VIEWER_HASH));
    let mut reloaded = Users::load_str(&file).unwrap();
    let token = reloaded.verify_user("admin", "correct horse").unwrap().unwrap();
    assert!(reloaded.is_admin_session(&token));
    assert!(matches!(reloaded.verify_user("admin", "wrong"), Err(LoginError::WrongPassword)));
    assert!(matches!(reloaded.verify_user("nobody", "x"), Err(LoginError::UnknownUser)));
}

#[test]
fn logout_ends_only_that_session() {
    let mut users = Users::new();
    let mut file = String::new();
    let a = register(&mut users, &mut file, "erin", "pw").unwrap().unwrap();
    let b = users.verify_user("erin", "pw").unwrap().unwrap();
    users.remove_session(&a);
    assert_eq!(users.validate_session(&a), None);
    assert_eq!(users.validate_session(&b), Some("erin".to_string()));
    users.remove_session(&a);
    assert_eq!(users.validate_session(&a), None);
}

#[test]
fn admin_checks() {
    assert!(is_admin("admin"));
    assert!(!is_admin("Admin"));
    assert!(!is_admin("admin2"));
    assert!(!is_admin(""));
    let users = Users::new();
    assert!(!admin_user_exists(&users));
    assert!(!users.is_admin_session("no-such-token"));
}

#[test]
fn new_user_without_the_store() {
    assert!(matches!(NewUser::create("bad name", "pw"), Err(RegisterError::InvalidName(UserNameError::Char(' ')))));
    assert!(matches!(NewUser::create("frank", "pässword"), Err(RegisterError::NonAsciiPassword)));
    let user = NewUser::create("frank", "pw").unwrap();
    assert_eq!(user.name(), "frank");
    assert!(user.record_line().starts_with("$frank$97$argon2id$"));
    let record = user.into_record();
    assert_eq!(check_password(Some(&record.hash), "pw"), Ok(()));
    assert_eq!(check_password(Some(&record.hash), "px"), Err(LoginError::WrongPassword));
    assert_eq!(check_password(None, "pw"), Err(LoginError::UnknownUser));
}
