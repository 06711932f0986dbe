use shipit::commit::{CommitRequest, FileList};
use shipit::repository::{InMemoryRepository, Repository};

#[test]
fn test_inmemory_repository() {
    // initialize repository with a file
    let test_content = b"Hello World".to_vec();
    let mut repo = InMemoryRepository::new();
    repo.insert_file("test".to_string(), "file.txt".to_string(), test_content.clone());

    // try getting the file
    assert_eq!(repo.get("file.txt", "test").unwrap(), test_content);

    // try adding a new file
    let other_file_name = "file2.txt";
    let other_test_content = b"hello again!!".to_vec();
    let mut files = FileList::new();
    files.insert(other_file_name.to_string(), other_test_content.clone());
    repo.commit(CommitRequest { files, branch: "test".to_string(), ..Default::default() })
        .unwrap();

    // try getting the new file
    assert_eq!(repo.get(other_file_name, "test").unwrap(), other_test_content);
}

#[test]
fn inmemory_get_missing_is_not_found() {
    let repo = InMemoryRepository::new();
    assert!(matches!(repo.get("nope", "main"), Err(shipit::Error::NotFound)));
}

#[test]
fn commit_overwrites_previous_content() {
    let mut repo = InMemoryRepository::new();
    repo.insert_file("main".to_string(), "f".to_string(), b"old".to_vec());
    let mut files = FileList::new();
    files.insert("f".to_string(), b"new".to_vec());
    repo.commit(CommitRequest { files, branch: "main".to_string(), ..Default::default() })
        .unwrap();
    assert_eq!(repo.get("f", "main").unwrap(), b"new".to_vec());
}
