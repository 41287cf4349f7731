use site_auth::hasher::create_pass_hash;
use site_auth::helpers::{command_output, display_duration, display_separated, eq_one_of, Dep, ExternalDeps};
use site_auth::profile::{User, UserInfo};

#[test]
fn eq_one_of_matches_exactly() {
    assert!(eq_one_of("src", &["src", "target"]));
    assert!(eq_one_of("target", &["src", "target"]));
    assert!(!eq_one_of("Src", &["src", "target"]));
    assert!(!eq_one_of("x", &[]));
}

#[test]
fn command_output_drops_one_newline() {
    assert_eq!(command_output(b"hello\n".to_vec()), "hello");
    assert_eq!(command_output(b"two\n\n".to_vec()), "two\n");
    assert_eq!(command_output(b"none".to_vec()), "none");
    assert_eq!(command_output(Vec::new()), "");
    assert_eq!(command_output(vec![0x66, 0xff, b'\n']), "f\u{fffd}");
}

#[test]
fn display_separated_joins() {
    let items = vec!["a".to_string(), "b".to_string(), "c".to_string()];
    assert_eq!(display_separated(&items, ", "), "a, b, c");
    assert_eq!(display_separated(&items[..1], ", "), "a");
    assert_eq!(display_separated(&[], ", "), "");
}

#[test]
fn dep_texts() {
    let pkg = Dep::Package { name: "sass".to_string(), install: "npm i -g sass".to_string() };
    assert_eq!(pkg.name(), "sass");
    assert_eq!(pkg.installation(), "Run command `npm i -g sass`");
    let file = Dep::File {
        name: "tool".to_string(),
        download: "https://example.org/t".to_string(),
        instructions: "unpack it".to_string(),
    };
    assert_eq!(file.name(), "tool");
    assert_eq!(file.installation(), "Download from \"https://example.org/t\", then unpack it");
}

#[test]
fn external_deps_report() {
    let deps = ExternalDeps::new(
        vec![
            Dep::Package { name: "sass".to_string(), install: "npm i -g sass".to_string() },
            Dep::Package { name: "identify".to_string(), install: "apt install imagemagick".to_string() },
        ],
        vec![Dep::Package { name: "mutagen".to_string(), install: "pip install mutagen".to_string() }],
    );
    let (good, lines) = deps.resolve(&vec![true, false], &vec![false]);
    assert!(!good);
    assert_eq!(
        lines,
        vec![
            "Missing \"identify\" command. Installation:\n\tRun command `apt install imagemagick`".to_string(),
            "Missing python module \"mutagen\". Installation:\n\tRun command `pip install mutagen`".to_string(),
        ]
    );
    let (good, lines) = deps.resolve(&vec![true, true], &vec![true]);
    assert!(good);
    assert!(lines.is_empty());
}

#[test]
fn user_info_headers() {
    let info = UserInfo::from_username("alice".to_string());
    assert_eq!(info.username.as_deref(), Some("alice"));
    assert_eq!(info.pfp_path.as_deref(), Some("./res/users-pfp/alice"));
    let none = UserInfo::from_optional_username(None);
    assert!(none.username.is_none() && none.pfp_path.is_none());
    let from_user = UserInfo::from_user(Some(User { name: "bob".to_string(), pfp_path: None }));
    assert_eq!(from_user.username.as_deref(), Some("bob"));
    assert!(from_user.pfp_path.is_none());
}

#[test]
fn password_hash_is_a_salted_phc_string() {
    let a = create_pass_hash(b"password").unwrap();
    let b = create_pass_hash(b"password").unwrap();
    assert!(a.starts_with("$argon2id$v=19$m=19456,t=2,p=1$"));
    assert_eq!(a.len(), 31 + 22 + 1 + 43);
    assert!(a.is_ascii());
    let salt = &a[31..53];
    assert!(!salt.contains('$'));
    assert_eq!(&a[53..54], "$");
    assert_ne!(a, "password");
    assert_ne!(a, b);
}

#[test]
fn durations() {
    assert_eq!(display_duration(0), "00:00");
    assert_eq!(display_duration(65), "01:05");
    assert_eq!(display_duration(599), "09:59");
    assert_eq!(display_duration(3600), "1:00:00");
    assert_eq!(display_duration(3725), "1:02:05");
    assert_eq!(display_duration(36000 + 59 * 60 + 59), "10:59:59");
}
