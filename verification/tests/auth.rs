use bucket_store::auth::{is_authed, is_authed_header, is_authed_query, AuthQuery};
use bucket_store::config::{Config, UserData};

fn test_config() -> Config {
    let users = vec![
        (
            "user1".to_string(),
            UserData::new("mysecret".to_string(), "user1".to_string()),
        ),
        (
            "user2".to_string(),
            UserData::new("othersecret".to_string(), "folder2".to_string()),
        ),
    ];
    Config::new("localhost".to_string(), 8080, "store".to_string(), users).unwrap()
}

#[test]
fn unknown_user_fails_for_any_secret() {
    let config = test_config();
    assert!(is_authed(&config, "whothat", "mysecret").is_none());
    assert!(is_authed(&config, "whothat", "").is_none());
    assert!(is_authed(&config, "whothat", "othersecret").is_none());
    assert!(is_authed(&config, "", "mysecret").is_none());
}

#[test]
fn exact_secret_succeeds() {
    let config = test_config();
    let userdata = is_authed(&config, "user1", "mysecret").unwrap();
    assert_eq!(userdata.folder, "user1");
    assert_eq!(userdata.key, "mysecret");
    let userdata2 = is_authed(&config, "user2", "othersecret").unwrap();
    assert_eq!(userdata2.folder, "folder2");
}

#[test]
fn single_character_deviation_fails() {
    let config = test_config();
    assert!(is_authed(&config, "user1", "mysecret").is_some());
    assert!(is_authed(&config, "user1", "Mysecret").is_none());
    assert!(is_authed(&config, "user1", "mysecrex").is_none());
    assert!(is_authed(&config, "user1", "mysecre").is_none());
    assert!(is_authed(&config, "user1", "mysecrett").is_none());
    assert!(is_authed(&config, "user1", "").is_none());
    assert!(is_authed(&config, "user1", "othersecret").is_none());
}

#[test]
fn missing_headers_are_refused() {
    let config = test_config();
    assert!(is_authed_header(&config, None, None).is_none());
    assert!(is_authed_header(&config, Some("user1"), None).is_none());
    assert!(is_authed_header(&config, None, Some("mysecret")).is_none());
    assert!(is_authed_header(&config, Some("user1"), Some("mysecret")).is_some());
}

#[test]
fn wrong_header_credentials_are_refused() {
    let config = test_config();
    assert!(is_authed_header(&config, Some("user1"), Some("456")).is_none());
    assert!(is_authed_header(&config, Some("someone"), Some("mysecret")).is_none());
}

#[test]
fn query_and_header_roads_agree() {
    let config = test_config();
    let pairs = [
        ("user1", "mysecret"),
        ("user1", "wrong"),
        ("someone", "mysecret"),
        ("user2", "othersecret"),
        ("user2", "mysecret"),
        ("", ""),
    ];
    for (username, auth) in pairs {
        let via_query = is_authed_query(
            &config,
            &AuthQuery {
                username: username.to_string(),
                auth: auth.to_string(),
            },
        );
        let via_header = is_authed_header(&config, Some(username), Some(auth));
        match (via_query, via_header) {
            (Some(a), Some(b)) => {
                assert_eq!(a.folder, b.folder);
                assert_eq!(a.key, b.key);
            }
            (None, None) => {}
            _ => panic!("the two credential roads disagree for {username}:{auth}"),
        }
    }
}

#[test]
fn duplicate_usernames_are_rejected() {
    let users = vec![
        (
            "user1".to_string(),
            UserData::new("a".to_string(), "f1".to_string()),
        ),
        (
            "user1".to_string(),
            UserData::new("b".to_string(), "f2".to_string()),
        ),
    ];
    assert!(Config::new("localhost".to_string(), 8080, "store".to_string(), users).is_none());
}

#[test]
fn default_config_shape() {
    let config = Config::default();
    assert_eq!(config.host, "localhost");
    assert_eq!(config.port, 8080);
    assert_eq!(config.storage_folder, "store");
    assert_eq!(config.users.len(), 1);
    let (user, user_data) = &config.users[0];
    assert_eq!(user, "default_user");
    assert_eq!(user_data.folder, "default_user");
    assert_eq!(user_data.key.len(), 512);
    assert!(user_data.key.chars().all(|c| c.is_ascii_alphanumeric()));
}
