use bucket_store::config::{Config, UserData};
use bucket_store::store::{Bucket, FsAction, StorageFile, Store, StoreError, UserDir};

fn test_config() -> Config {
    let users = vec![(
        "user1".to_string(),
        UserData::new("mysecret".to_string(), "user1".to_string()),
    )];
    Config::new("localhost".to_string(), 8080, "store".to_string(), users).unwrap()
}

fn user1_dir(config: &Config) -> UserDir {
    UserDir::new(config, &config.users[0].1)
}

#[test]
fn user_dir_path() {
    let config = test_config();
    let user_dir = user1_dir(&config);
    assert_eq!(user_dir.path(), "store/user1");
}

#[test]
fn caller_named_buckets_must_be_alphanumeric() {
    let config = test_config();
    let user_dir = user1_dir(&config);
    assert!(Bucket::new(&user_dir, Some("bucket1".to_string())).is_some());
    assert!(Bucket::new(&user_dir, Some("B2".to_string())).is_some());
    assert!(Bucket::new(&user_dir, Some("bu cket".to_string())).is_none());
    assert!(Bucket::new(&user_dir, Some("bucket!".to_string())).is_none());
    assert!(Bucket::new(&user_dir, Some("../escape".to_string())).is_none());
    assert!(Bucket::new(&user_dir, Some("".to_string())).is_none());
    assert!(Bucket::new(&user_dir, Some("bücket".to_string())).is_none());
}

#[test]
fn generated_bucket_names_are_alphanumeric() {
    let config = test_config();
    let user_dir = user1_dir(&config);
    for _ in 0..16 {
        let bucket = Bucket::new(&user_dir, None).unwrap();
        assert_eq!(bucket.name.chars().count(), 16);
        assert!(bucket.name.chars().all(|c| c.is_ascii_alphanumeric()));
    }
}

#[test]
fn bucket_path() {
    let config = test_config();
    let user_dir = user1_dir(&config);
    let bucket = Bucket::new(&user_dir, Some("bucket1".to_string())).unwrap();
    assert_eq!(bucket.path(), "store/user1/bucket1");
}

#[test]
fn traversal_names_stay_in_the_bucket() {
    let config = test_config();
    let user_dir = user1_dir(&config);
    let bucket = Bucket::new(&user_dir, Some("bucket1".to_string())).unwrap();

    let file = StorageFile::new(&bucket, "../../etc/passwd".to_string());
    assert_eq!(file.name, "....etcpasswd");
    assert_eq!(file.path(), "store/user1/bucket1/....etcpasswd");

    assert_eq!(StorageFile::new(&bucket, "..".to_string()).name, "");
    assert_eq!(StorageFile::new(&bucket, "../".to_string()).name, "");
    assert_eq!(StorageFile::new(&bucket, "/abs/path".to_string()).name, "abspath");
    assert_eq!(StorageFile::new(&bucket, "slash\\.js".to_string()).name, "slash.js");
    assert_eq!(StorageFile::new(&bucket, "file.txt".to_string()).name, "file.txt");

    for raw in ["../../etc/passwd", "..\\..\\x", "a/b/c", "....//....//x"] {
        let name = StorageFile::new(&bucket, raw.to_string()).name;
        assert!(!name.contains('/'));
        assert!(!name.contains('\\'));
        assert_ne!(name, "..");
        assert_ne!(name, ".");
    }
}

#[test]
fn write_then_serve_round_trips() {
    let config = test_config();
    let user_dir = user1_dir(&config);
    let bucket = Bucket::new(&user_dir, Some("bucket1".to_string())).unwrap();
    let file = StorageFile::new(&bucket, "file.txt".to_string());

    let mut store = Store::new("store".to_string());
    let data = b"This is a testfile!".to_vec();
    let actions = file.write(&mut store, data.clone()).unwrap();

    assert_eq!(actions.len(), 3);
    match &actions[0] {
        FsAction::CreateDir(p) => assert_eq!(p, "store/user1"),
        _ => panic!("expected the user directory to be created first"),
    }
    match &actions[1] {
        FsAction::CreateDir(p) => assert_eq!(p, "store/user1/bucket1"),
        _ => panic!("expected the bucket directory to be created second"),
    }
    match &actions[2] {
        FsAction::WriteFile(p, d) => {
            assert_eq!(p, "store/user1/bucket1/file.txt");
            assert_eq!(d, &data);
        }
        _ => panic!("expected the bytes to be written last"),
    }

    let served = file.serve(&store).unwrap();
    assert_eq!(served, &data);
}

#[test]
fn existing_directories_are_not_recreated() {
    let config = test_config();
    let user_dir = user1_dir(&config);
    let bucket = Bucket::new(&user_dir, Some("bucket1".to_string())).unwrap();
    let mut store = Store::new("store".to_string());

    let first = StorageFile::new(&bucket, "a.txt".to_string());
    first.write(&mut store, vec![1]).unwrap();

    let second = StorageFile::new(&bucket, "b.txt".to_string());
    let actions = second.write(&mut store, vec![2]).unwrap();
    assert_eq!(actions.len(), 1);
    assert!(matches!(&actions[0], FsAction::WriteFile(_, _)));

    let other_bucket = Bucket::new(&user_dir, Some("bucket2".to_string())).unwrap();
    let third = StorageFile::new(&other_bucket, "c.txt".to_string());
    let actions = third.write(&mut store, vec![3]).unwrap();
    assert_eq!(actions.len(), 2);
    match &actions[0] {
        FsAction::CreateDir(p) => assert_eq!(p, "store/user1/bucket2"),
        _ => panic!("expected only the bucket directory to be created"),
    }
}

#[test]
fn create_open_refuses_to_overwrite() {
    let config = test_config();
    let user_dir = user1_dir(&config);
    let bucket = Bucket::new(&user_dir, Some("bucket1".to_string())).unwrap();
    let file = StorageFile::new(&bucket, "file.txt".to_string());
    let mut store = Store::new("store".to_string());

    file.write(&mut store, vec![1, 2, 3]).unwrap();
    assert_eq!(
        file.write(&mut store, vec![4, 5]),
        Err(StoreError::Conflict)
    );
    assert!(file.open(&mut store, true).is_none());
    assert_eq!(file.serve(&store).unwrap(), &vec![1, 2, 3]);
}

#[test]
fn deleting_the_last_file_collapses_the_tree() {
    let config = test_config();
    let user_dir = user1_dir(&config);
    let bucket = Bucket::new(&user_dir, Some("bucket1".to_string())).unwrap();
    let file = StorageFile::new(&bucket, "file.txt".to_string());
    let mut store = Store::new("store".to_string());

    file.write(&mut store, vec![7]).unwrap();
    let actions = file.delete(&mut store).unwrap();

    assert_eq!(actions.len(), 3);
    match &actions[0] {
        FsAction::RemoveFile(p) => assert_eq!(p, "store/user1/bucket1/file.txt"),
        _ => panic!("expected the file to be removed first"),
    }
    match &actions[1] {
        FsAction::RemoveDir(p) => assert_eq!(p, "store/user1/bucket1"),
        _ => panic!("expected the bucket directory to be removed second"),
    }
    match &actions[2] {
        FsAction::RemoveDir(p) => assert_eq!(p, "store/user1"),
        _ => panic!("expected the user directory to be removed last"),
    }

    assert!(file.serve(&store).is_none());
    assert!(file.open_path(&mut store, false).is_none());
    assert!(user_dir.open(&mut store, false).is_none());

    // The tree can be rebuilt from scratch afterwards.
    let actions = file.write(&mut store, vec![8]).unwrap();
    assert_eq!(actions.len(), 3);
}

#[test]
fn deleting_one_file_leaves_its_siblings() {
    let config = test_config();
    let user_dir = user1_dir(&config);
    let bucket = Bucket::new(&user_dir, Some("bucket1".to_string())).unwrap();
    let doomed = StorageFile::new(&bucket, "doomed.txt".to_string());
    let sibling = StorageFile::new(&bucket, "sibling.txt".to_string());
    let mut store = Store::new("store".to_string());

    doomed.write(&mut store, vec![1]).unwrap();
    sibling.write(&mut store, vec![2]).unwrap();

    let actions = doomed.delete(&mut store).unwrap();
    assert_eq!(actions.len(), 1);
    assert!(matches!(&actions[0], FsAction::RemoveFile(_)));

    assert!(doomed.serve(&store).is_none());
    assert_eq!(sibling.serve(&store).unwrap(), &vec![2]);
    assert!(bucket.open(&mut store, false).is_some());
}

#[test]
fn deleting_the_last_file_of_one_bucket_spares_the_user_dir() {
    let config = test_config();
    let user_dir = user1_dir(&config);
    let bucket1 = Bucket::new(&user_dir, Some("bucket1".to_string())).unwrap();
    let bucket2 = Bucket::new(&user_dir, Some("bucket2".to_string())).unwrap();
    let file1 = StorageFile::new(&bucket1, "a.txt".to_string());
    let file2 = StorageFile::new(&bucket2, "b.txt".to_string());
    let mut store = Store::new("store".to_string());

    file1.write(&mut store, vec![1]).unwrap();
    file2.write(&mut store, vec![2]).unwrap();

    let actions = file1.delete(&mut store).unwrap();
    assert_eq!(actions.len(), 2);
    match &actions[1] {
        FsAction::RemoveDir(p) => assert_eq!(p, "store/user1/bucket1"),
        _ => panic!("expected only the bucket directory to be removed"),
    }
    assert!(user_dir.open(&mut store, false).is_some());
    assert_eq!(file2.serve(&store).unwrap(), &vec![2]);
}

#[test]
fn deleting_a_missing_file_is_not_found() {
    let config = test_config();
    let user_dir = user1_dir(&config);
    let bucket = Bucket::new(&user_dir, Some("bucket1".to_string())).unwrap();
    let file = StorageFile::new(&bucket, "file.txt".to_string());
    let mut store = Store::new("store".to_string());

    assert_eq!(file.delete(&mut store), Err(StoreError::NotFound));

    let other = StorageFile::new(&bucket, "other.txt".to_string());
    other.write(&mut store, vec![1]).unwrap();
    assert_eq!(file.delete(&mut store), Err(StoreError::NotFound));
}

#[test]
fn try_delete_keeps_occupied_directories() {
    let config = test_config();
    let user_dir = user1_dir(&config);
    let bucket = Bucket::new(&user_dir, Some("bucket1".to_string())).unwrap();
    let file = StorageFile::new(&bucket, "file.txt".to_string());
    let mut store = Store::new("store".to_string());

    assert_eq!(user_dir.try_delete(&mut store), Err(StoreError::NotFound));
    assert_eq!(bucket.try_delete(&mut store), Err(StoreError::NotFound));

    file.write(&mut store, vec![1]).unwrap();
    assert_eq!(bucket.try_delete(&mut store), Ok(vec![]));
    assert_eq!(user_dir.try_delete(&mut store), Ok(vec![]));
    assert!(file.serve(&store).is_some());
}

#[test]
fn open_modes() {
    let config = test_config();
    let user_dir = user1_dir(&config);
    let bucket = Bucket::new(&user_dir, Some("bucket1".to_string())).unwrap();
    let file = StorageFile::new(&bucket, "file.txt".to_string());
    let mut store = Store::new("store".to_string());

    assert!(user_dir.open(&mut store, false).is_none());
    assert!(bucket.open(&mut store, false).is_none());
    assert!(file.open(&mut store, false).is_none());
    assert!(file.open_path(&mut store, false).is_none());

    let path = file.open(&mut store, true).unwrap();
    assert_eq!(path, "store/user1/bucket1/file.txt");
    assert_eq!(user_dir.open(&mut store, false).unwrap(), "store/user1");
    assert_eq!(bucket.open(&mut store, false).unwrap(), "store/user1/bucket1");
    assert_eq!(file.open(&mut store, false).unwrap(), path);
    assert_eq!(file.open_path(&mut store, false).unwrap(), path);
    assert!(file.open(&mut store, true).is_none());
}
