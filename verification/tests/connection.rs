use rxsync::connection::{AuthOption, SshCred};

#[test]
fn credentials_keep_what_they_are_given() {
    let cred = SshCred::new(
        AuthOption::UserauthPassword("user".to_string(), "word".to_string()),
        "127.0.0.1".to_string(),
        "22".to_string(),
    );
    assert_eq!(cred.host(), "127.0.0.1");
    assert_eq!(cred.port(), "22");
    assert_eq!(cred.address(), "127.0.0.1:22");
    match cred.auth() {
        AuthOption::UserauthPassword(name, _) => assert_eq!(name, "user"),
        _ => panic!("the password option was given"),
    }
}

#[test]
fn a_key_file_option_holds_its_paths() {
    let cred = SshCred::new(
        AuthOption::UserauthPubkeyFile(
            "user".to_string(),
            None,
            "/home/user/.ssh/id".to_string(),
            Some("phrase".to_string()),
        ),
        "example.org".to_string(),
        "2222".to_string(),
    );
    assert_eq!(cred.address(), "example.org:2222");
    match cred.auth() {
        AuthOption::UserauthPubkeyFile(name, public, private, phrase) => {
            assert_eq!(name, "user");
            assert_eq!(public, &None);
            assert_eq!(private, "/home/user/.ssh/id");
            assert_eq!(phrase, &Some("phrase".to_string()));
        }
        _ => panic!("the key file option was given"),
    }
    let agent = SshCred::new(
        AuthOption::UserauthAgent("user".to_string()),
        "h".to_string(),
        "1".to_string(),
    );
    assert!(matches!(agent.auth(), AuthOption::UserauthAgent(_)));
}
