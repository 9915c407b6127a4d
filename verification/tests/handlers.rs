use bucket_store::auth::AuthQuery;
use bucket_store::config::{Config, UserData};
use bucket_store::handlers::{
    concat_chunks, handle_delete_header, handle_delete_query, handle_find, handle_upload,
    DeleteOutcome, ServeOutcome,
};
use bucket_store::store::Store;

fn test_config() -> Config {
    let users = vec![(
        "user1".to_string(),
        UserData::new("mysecret".to_string(), "user1".to_string()),
    )];
    Config::new("localhost".to_string(), 8080, "store".to_string(), users).unwrap()
}

#[test]
fn upload_then_fetch_round_trips() {
    let config = test_config();
    let mut store = Store::new("store".to_string());
    let data = b"This is a testfile!".to_vec();

    let receipt = handle_upload(
        &config,
        &mut store,
        &config.users[0].1,
        "file.txt".to_string(),
        data.clone(),
    )
    .unwrap();

    let bucket_name = receipt.file.bucket.name.clone();
    assert_eq!(
        receipt.advertised,
        format!("user1/{}/file.txt", bucket_name)
    );

    match handle_find(&config, &store, "user1", bucket_name.clone(), "file.txt".to_string()) {
        ServeOutcome::Found(d) => assert_eq!(d, &data),
        _ => panic!("the uploaded file must be served back"),
    }

    match handle_find(&config, &store, "user1", "bucket".to_string(), "file.txt".to_string()) {
        ServeOutcome::NotFound => {}
        _ => panic!("an unrelated bucket must read as not found"),
    }
    match handle_find(&config, &store, "user1", bucket_name, "other.txt".to_string()) {
        ServeOutcome::NotFound => {}
        _ => panic!("an unrelated file name must read as not found"),
    }
}

#[test]
fn find_unknown_user_is_not_found() {
    let config = test_config();
    let store = Store::new("store".to_string());
    assert!(matches!(
        handle_find(&config, &store, "whothat", "bucket".to_string(), "file.txt".to_string()),
        ServeOutcome::NotFound
    ));
}

#[test]
fn find_invalid_bucket_name_is_refused() {
    let config = test_config();
    let store = Store::new("store".to_string());
    assert!(matches!(
        handle_find(&config, &store, "user1", "bu/cket".to_string(), "file.txt".to_string()),
        ServeOutcome::InvalidName
    ));
}

#[test]
fn delete_with_wrong_target_is_not_found() {
    let config = test_config();
    let mut store = Store::new("store".to_string());

    let receipt = handle_upload(
        &config,
        &mut store,
        &config.users[0].1,
        "file.txt".to_string(),
        vec![1, 2, 3],
    )
    .unwrap();
    let bucket_name = receipt.file.bucket.name.clone();

    // Correct header credentials, wrong bucket or file name.
    assert!(matches!(
        handle_delete_header(
            &config,
            &mut store,
            Some("user1"),
            Some("mysecret"),
            "bucket".to_string(),
            "file.txt".to_string(),
        ),
        DeleteOutcome::NotFound
    ));
    assert!(matches!(
        handle_delete_header(
            &config,
            &mut store,
            Some("user1"),
            Some("mysecret"),
            bucket_name.clone(),
            "other.txt".to_string(),
        ),
        DeleteOutcome::NotFound
    ));

    // The stored file is untouched by the failed attempts.
    assert!(matches!(
        handle_find(&config, &store, "user1", bucket_name, "file.txt".to_string()),
        ServeOutcome::Found(_)
    ));
}

#[test]
fn delete_with_bad_credentials_is_forbidden_regardless_of_existence() {
    let config = test_config();
    let mut store = Store::new("store".to_string());

    let receipt = handle_upload(
        &config,
        &mut store,
        &config.users[0].1,
        "file.txt".to_string(),
        vec![9],
    )
    .unwrap();
    let bucket_name = receipt.file.bucket.name.clone();

    // Existing file, wrong or missing credentials.
    assert!(matches!(
        handle_delete_header(
            &config,
            &mut store,
            Some("user1"),
            Some("456"),
            bucket_name.clone(),
            "file.txt".to_string(),
        ),
        DeleteOutcome::Forbidden
    ));
    assert!(matches!(
        handle_delete_header(
            &config,
            &mut store,
            Some("someone"),
            Some("mysecret"),
            bucket_name.clone(),
            "file.txt".to_string(),
        ),
        DeleteOutcome::Forbidden
    ));
    assert!(matches!(
        handle_delete_header(
            &config,
            &mut store,
            None,
            Some("mysecret"),
            bucket_name.clone(),
            "file.txt".to_string(),
        ),
        DeleteOutcome::Forbidden
    ));
    assert!(matches!(
        handle_delete_header(
            &config,
            &mut store,
            Some("user1"),
            None,
            bucket_name.clone(),
            "file.txt".to_string(),
        ),
        DeleteOutcome::Forbidden
    ));

    // Missing file, wrong credentials: still forbidden, not "not found".
    assert!(matches!(
        handle_delete_header(
            &config,
            &mut store,
            Some("user1"),
            Some("456"),
            "nosuchbucket1".to_string(),
            "file.txt".to_string(),
        ),
        DeleteOutcome::Forbidden
    ));

    // The file survived all of it.
    assert!(matches!(
        handle_find(&config, &store, "user1", bucket_name, "file.txt".to_string()),
        ServeOutcome::Found(_)
    ));
}

#[test]
fn header_delete_removes_the_file() {
    let config = test_config();
    let mut store = Store::new("store".to_string());

    let receipt = handle_upload(
        &config,
        &mut store,
        &config.users[0].1,
        "file.txt".to_string(),
        vec![1],
    )
    .unwrap();
    let bucket_name = receipt.file.bucket.name.clone();

    match handle_delete_header(
        &config,
        &mut store,
        Some("user1"),
        Some("mysecret"),
        bucket_name.clone(),
        "file.txt".to_string(),
    ) {
        DeleteOutcome::Deleted(actions) => assert_eq!(actions.len(), 3),
        _ => panic!("the delete must succeed"),
    }
    assert!(matches!(
        handle_find(&config, &store, "user1", bucket_name, "file.txt".to_string()),
        ServeOutcome::NotFound
    ));
}

#[test]
fn query_and_header_deletes_produce_identical_outcomes() {
    let config = test_config();
    let scenarios = [
        ("user1", "mysecret", true),
        ("user1", "456", false),
        ("someone", "mysecret", false),
    ];
    for (username, auth, _should_delete) in scenarios {
        // Two stores prepared identically, one per credential road.
        let mut header_store = Store::new("store".to_string());
        let mut query_store = Store::new("store".to_string());
        for store in [&mut header_store, &mut query_store] {
            let user_dir = bucket_store::store::UserDir::new(&config, &config.users[0].1);
            let bucket =
                bucket_store::store::Bucket::new(&user_dir, Some("bucket1".to_string())).unwrap();
            let file = bucket_store::store::StorageFile::new(&bucket, "file.txt".to_string());
            file.write(store, vec![5]).unwrap();
        }

        let via_header = handle_delete_header(
            &config,
            &mut header_store,
            Some(username),
            Some(auth),
            "bucket1".to_string(),
            "file.txt".to_string(),
        );
        let via_query = handle_delete_query(
            &config,
            &mut query_store,
            &AuthQuery {
                username: username.to_string(),
                auth: auth.to_string(),
            },
            "bucket1".to_string(),
            "file.txt".to_string(),
        );

        match (via_header, via_query) {
            (DeleteOutcome::Deleted(a), DeleteOutcome::Deleted(b)) => assert_eq!(a, b),
            (DeleteOutcome::Forbidden, DeleteOutcome::Forbidden) => {}
            (DeleteOutcome::NotFound, DeleteOutcome::NotFound) => {}
            (DeleteOutcome::InvalidName, DeleteOutcome::InvalidName) => {}
            _ => panic!("the two credential roads disagree for {username}:{auth}"),
        }
    }
}

#[test]
fn upload_uses_fresh_random_buckets() {
    let config = test_config();
    let mut store = Store::new("store".to_string());

    let first = handle_upload(
        &config,
        &mut store,
        &config.users[0].1,
        "file.txt".to_string(),
        vec![1],
    )
    .unwrap();
    let second = handle_upload(
        &config,
        &mut store,
        &config.users[0].1,
        "file.txt".to_string(),
        vec![2],
    )
    .unwrap();

    assert_ne!(first.file.bucket.name, second.file.bucket.name);
    assert_eq!(first.file.bucket.name.len(), 16);
    assert!(first
        .file
        .bucket
        .name
        .chars()
        .all(|c| c.is_ascii_alphanumeric()));
}

#[test]
fn chunks_are_concatenated_in_arrival_order() {
    let chunks = vec![vec![1u8, 2], vec![3], vec![], vec![4, 5, 6]];
    assert_eq!(concat_chunks(&chunks), vec![1, 2, 3, 4, 5, 6]);
    assert_eq!(concat_chunks(&Vec::new()), Vec::<u8>::new());
}
