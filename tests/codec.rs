use site_auth::codec::{decode_records, encode_record, text_to_append};
use site_auth::error::LoadUsersError;
use site_auth::hasher::create_pass_hash;
use site_auth::store::db_from_str;
use site_auth::username::UserNameError;
use site_auth::users::Users;

const ADMIN_HASH: &str = "$argon2id$v=19$m=4096,t=3,p=1$DkiuneDgPzT0wJDiNly1TQ$TBPaDhAzZNnvSEQVHHy5yd/Ih34jwHkRJDTP9Yy+KG5gpLvfC/siR9NFJ9GK";
const VIEWER_HASH: &str = "$argon2id$v=19$m=4096,t=3,p=1$M92l6PXdp3JfUtLd5mfD2Q$DxDiy3w54NcvTvxrzT4JbM8zreWimW8HMCit1vZ+Yczes9u8Yu0pVBGoRCxt";

fn two_user_file() -> String {
    format!("$admin$113{ADMIN_HASH}\n$viewer$113{VIEWER_HASH}")
}

#[test]
fn load() {
    let file = two_user_file();
    let users = Users::load_str(&file).unwrap();
    let mut names = users.store.usernames();
    names.sort();
    assert_eq!(names, vec!["admin".to_string(), "viewer".to_string()]);
    assert_eq!(users.store.get("admin").map(String::as_str), Some(ADMIN_HASH));
    let records = decode_records(&file).unwrap();
    assert_eq!(records.len(), 2);
    assert_eq!(records[0].name, "admin");
    assert_eq!(records[0].hash, ADMIN_HASH);
    assert_eq!(records[1].name, "viewer");
    assert_eq!(records[1].hash, VIEWER_HASH);
}

#[test]
fn encode_record_exact_line() {
    assert_eq!(encode_record("admin", ADMIN_HASH), format!("$admin$113{ADMIN_HASH}\n"));
    assert_eq!(encode_record("bob", "$x"), "$bob$2$x\n");
}

#[test]
fn empty_file_has_no_records() {
    assert_eq!(decode_records("").unwrap().len(), 0);
}

#[test]
fn round_trip_of_a_fresh_hash() {
    let hash = create_pass_hash(b"secret").unwrap();
    let line = encode_record("carol", &hash);
    let records = decode_records(&line).unwrap();
    assert_eq!(records.len(), 1);
    assert_eq!(records[0].name, "carol");
    assert_eq!(records[0].hash, hash);
    assert_eq!(encode_record(&records[0].name, &records[0].hash), line);
}

#[test]
fn record_must_start_with_separator() {
    assert!(matches!(decode_records("admin$113"), Err(LoadUsersError::InvalidEntry)));
    let file = format!("$admin$113{ADMIN_HASH}\n\n");
    assert!(matches!(decode_records(&file), Err(LoadUsersError::InvalidEntry)));
}

#[test]
fn bad_username_in_file() {
    let file = format!("$ad min$113{ADMIN_HASH}\n");
    assert!(matches!(
        decode_records(&file),
        Err(LoadUsersError::InvalidUserName(UserNameError::Char(' ')))
    ));
    let file = format!("$$113{ADMIN_HASH}\n");
    assert!(matches!(
        decode_records(&file),
        Err(LoadUsersError::InvalidUserName(UserNameError::Empty))
    ));
}

#[test]
fn length_must_be_a_number() {
    let file = format!("$admin$1x3{ADMIN_HASH}\n");
    assert!(matches!(decode_records(&file), Err(LoadUsersError::BadHashLength)));
    let file = format!("$admin${ADMIN_HASH}\n");
    assert!(matches!(decode_records(&file), Err(LoadUsersError::BadHashLength)));
}

#[test]
fn declared_length_past_end_is_incomplete() {
    let file = format!("$admin$113{ADMIN_HASH}\n$viewer$500{VIEWER_HASH}");
    assert!(matches!(decode_records(&file), Err(LoadUsersError::IncompleteHash)));
    assert!(matches!(db_from_str(&file), Err(LoadUsersError::IncompleteHash)));
    assert!(matches!(decode_records("$admin$0$\n"), Err(LoadUsersError::IncompleteHash)));
    assert!(matches!(decode_records("$admin"), Err(LoadUsersError::IncompleteHash)));
    assert!(matches!(decode_records("$admin$113"), Err(LoadUsersError::IncompleteHash)));
}

#[test]
fn length_beyond_any_input_is_incomplete() {
    let file = format!("$admin$99999999999999999999999{ADMIN_HASH}\n");
    assert!(matches!(decode_records(&file), Err(LoadUsersError::IncompleteHash)));
    assert!(matches!(db_from_str(&file), Err(LoadUsersError::IncompleteHash)));
}

#[test]
fn missing_record_separator() {
    let file = format!("$admin$112{ADMIN_HASH}\n");
    assert!(matches!(decode_records(&file), Err(LoadUsersError::InvalidEntrySep('K'))));
}

#[test]
fn unparsable_hash() {
    assert!(matches!(decode_records("$admin$4$!!!\n"), Err(LoadUsersError::InvalidHash(_))));
}

#[test]
fn appending_after_an_unterminated_record() {
    let line = encode_record("carol", VIEWER_HASH);
    assert_eq!(text_to_append(None, &line), line);
    assert_eq!(text_to_append(Some('\n'), &line), line);
    assert_eq!(text_to_append(Some('K'), &line), format!("\n{line}"));
    let file = two_user_file();
    let grown = format!("{file}{}", text_to_append(file.chars().last(), &line));
    assert_eq!(decode_records(&grown).unwrap().len(), 3);
}
