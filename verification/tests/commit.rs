use shipit::commit::{CommitRequest, FileList};

#[test]
fn test_split_author() {
    let (name, email) = ("test-author", "author@example.com");
    let combined = format!("{} <{}>", name, email);

    assert_eq!(
        CommitRequest { author: combined, ..Default::default() }.split_author(),
        (name.to_string(), email.to_string())
    );

    assert_eq!(
        CommitRequest { author: name.to_string(), ..Default::default() }.split_author(),
        (name.to_string(), "".into())
    );

    assert_eq!(
        CommitRequest { author: format!("<{}>", email), ..Default::default() }.split_author(),
        ("".into(), email.to_string())
    );
}

#[test]
fn split_author_handles_spacing_and_unicode() {
    let req = CommitRequest { author: "  Jane Doe   < jane@example.com > ".to_string(), ..Default::default() };
    assert_eq!(req.split_author(), ("Jane Doe".to_string(), "jane@example.com".to_string()));

    let req = CommitRequest { author: "Jane\u{00A0}<j@x>".to_string(), ..Default::default() };
    assert_eq!(req.split_author(), ("Jane".to_string(), "j@x".to_string()));

    let req = CommitRequest { author: "".to_string(), ..Default::default() };
    assert_eq!(req.split_author(), ("".to_string(), "".to_string()));
}

#[test]
fn file_list_keeps_order_and_overwrites() {
    let mut files = FileList::new();
    files.insert("a.txt".to_string(), b"one".to_vec());
    files.insert("b.txt".to_string(), b"two".to_vec());
    files.insert("a.txt".to_string(), b"three".to_vec());

    assert_eq!(files.len(), 2);
    assert_eq!(files.get("a.txt"), Some(&b"three".to_vec()));
    assert_eq!(files.get("b.txt"), Some(&b"two".to_vec()));
    assert_eq!(files.get("c.txt"), None);
    let entries = files.entries();
    assert_eq!(entries[0].0, "a.txt");
    assert_eq!(entries[1].0, "b.txt");
}
