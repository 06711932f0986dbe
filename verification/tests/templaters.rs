use shipit::commit::CommitRequest;
use shipit::doc::Doc;
use shipit::error::Error;
use shipit::repository::{InMemoryRepository, Repository};
use shipit::templaters::json::{update_json_file, Patch, PatchOperation, ReplaceOperation};
use shipit::templaters::{json, mutate, yaml, Mutation};

#[test]
fn json_test_update_file() {
    let original = br#"{"test":{"nested":"dummy"},"array":["changeme"]}"#;

    let file = json::update_file(
        original,
        &vec![
            ("test/nested".to_string(), "changed".to_string()),
            ("array/0".to_string(), "changed".to_string()),
        ],
    )
    .unwrap();

    let parsed: serde_json::Value = serde_json::from_slice(&file).unwrap();

    assert_eq!(parsed["test"]["nested"], "changed");
    assert_eq!(parsed["array"][0], "changed");
}

#[test]
fn yaml_test_update_file() {
    let original = b"\ntest:\n  nested:\n    key: changeme\nsomething:\n  - else";

    let changed = yaml::update_file(
        original,
        &vec![
            ("test.nested.key".to_string(), "changed".to_string()),
            ("something.0".to_string(), "also changed".to_string()),
        ],
    )
    .unwrap();

    let parsed: serde_yaml::Value = serde_yaml::from_slice(&changed).unwrap();
    assert_eq!(parsed["test"]["nested"]["key"], "changed");
    assert_eq!(parsed["something"][0], "also changed");
}

#[test]
fn patched_node_changes_and_siblings_stay() {
    let original = br#"{"image":{"tag":"v1","name":"app"},"replicas":3}"#;
    let out = json::update_file(
        original,
        &vec![("image/tag".to_string(), "v2".to_string())],
    )
    .unwrap();
    let parsed: serde_json::Value = serde_json::from_slice(&out).unwrap();
    assert_eq!(parsed["image"]["tag"], "v2");
    assert_eq!(parsed["image"]["name"], "app");
    assert_eq!(parsed["replicas"], 3);
}

#[test]
fn unresolvable_path_is_path_error() {
    let original = br#"{"a":{"b":1}}"#;
    // missing key
    assert!(matches!(
        json::update_file(original, &vec![("a/missing".to_string(), "x".to_string())]),
        Err(Error::PathError)
    ));
    // index out of bounds
    assert!(matches!(
        json::update_file(
            br#"{"arr":["only"]}"#,
            &vec![("arr/5".to_string(), "x".to_string())]
        ),
        Err(Error::PathError)
    ));
    // scalar is not keyable
    assert!(matches!(
        json::update_file(original, &vec![("a/b/c".to_string(), "x".to_string())]),
        Err(Error::PathError)
    ));
    // one bad path fails the whole file even beside a good one
    assert!(matches!(
        json::update_file(
            original,
            &vec![
                ("a/b".to_string(), "ok".to_string()),
                ("a/missing".to_string(), "x".to_string()),
            ]
        ),
        Err(Error::PathError)
    ));
}

#[test]
fn invalid_document_is_document_error() {
    assert!(matches!(
        json::update_file(b"{not json", &vec![]),
        Err(Error::DocumentError)
    ));
    assert!(matches!(
        yaml::update_file(b"a: [unclosed", &vec![]),
        Err(Error::DocumentError)
    ));
}

#[test]
fn numeric_segments_parse_like_indices() {
    // a segment with a leading plus or leading zeros still reads as an index
    let original = br#"{"arr":["a","b","c"]}"#;
    let out = json::update_file(
        original,
        &vec![("arr/+1".to_string(), "x".to_string())],
    )
    .unwrap();
    let parsed: serde_json::Value = serde_json::from_slice(&out).unwrap();
    assert_eq!(parsed["arr"][1], "x");

    let out = json::update_file(
        original,
        &vec![("arr/02".to_string(), "y".to_string())],
    )
    .unwrap();
    let parsed: serde_json::Value = serde_json::from_slice(&out).unwrap();
    assert_eq!(parsed["arr"][2], "y");

    // a numeric segment never addresses an object key
    assert!(matches!(
        json::update_file(
            br#"{"0":"zero"}"#,
            &vec![("0".to_string(), "x".to_string())]
        ),
        Err(Error::PathError)
    ));
}

#[test]
fn test_update_json_file() {
    let original = br#"{"test":{"nested":"dummy"}}"#;

    let file = update_json_file(
        original,
        &Patch(vec![PatchOperation::Replace(ReplaceOperation {
            path: "/test/nested".to_string(),
            value: Doc::Str("changed".to_string()),
        })]),
    )
    .unwrap();

    let parsed: serde_json::Value = serde_json::from_slice(&file).unwrap();

    assert_eq!(parsed["test"]["nested"], "changed");
}

#[test]
fn json_pointer_escapes_and_indices() {
    let original = br#"{"a/b":{"~x":"old"},"arr":["one","two","three"]}"#;

    // ~1 and ~0 decode to the separator and the tilde
    let out = update_json_file(
        original,
        &Patch(vec![PatchOperation::Replace(ReplaceOperation {
            path: "/a~1b/~0x".to_string(),
            value: Doc::Str("new".to_string()),
        })]),
    )
    .unwrap();
    let parsed: serde_json::Value = serde_json::from_slice(&out).unwrap();
    assert_eq!(parsed["a/b"]["~x"], "new");

    // a pointer indexes arrays by bare decimals
    let out = update_json_file(
        original,
        &Patch(vec![PatchOperation::Replace(ReplaceOperation {
            path: "/arr/1".to_string(),
            value: Doc::Str("TWO".to_string()),
        })]),
    )
    .unwrap();
    let parsed: serde_json::Value = serde_json::from_slice(&out).unwrap();
    assert_eq!(parsed["arr"][1], "TWO");

    // a leading zero, a missing slash, or a bad escape is no pointer
    for bad in ["/arr/01", "arr/1", "/arr/~2"] {
        assert!(matches!(
            update_json_file(
                original,
                &Patch(vec![PatchOperation::Replace(ReplaceOperation {
                    path: bad.to_string(),
                    value: Doc::Null,
                })]),
            ),
            Err(Error::PathError)
        ));
    }

    // the empty pointer replaces the whole document
    let out = update_json_file(
        original,
        &Patch(vec![PatchOperation::Replace(ReplaceOperation {
            path: "".to_string(),
            value: Doc::Bool(true),
        })]),
    )
    .unwrap();
    assert_eq!(out, b"true".to_vec());
}

#[test]
fn mutate_accumulates_and_overwrites() {
    let mut repo = InMemoryRepository::new();
    repo.insert_file(
        "main".to_string(),
        "a.json".to_string(),
        br#"{"k":"old"}"#.to_vec(),
    );
    repo.insert_file(
        "main".to_string(),
        "b.yaml".to_string(),
        b"top:\n  inner: before".to_vec(),
    );

    let muts = vec![
        Mutation::Json {
            file: "a.json".to_string(),
            changes: vec![("k".to_string(), "first".to_string())],
        },
        Mutation::Yaml {
            file: "b.yaml".to_string(),
            changes: vec![("top.inner".to_string(), "after".to_string())],
        },
        Mutation::Json {
            file: "a.json".to_string(),
            changes: vec![("k".to_string(), "second".to_string())],
        },
    ];

    let files = mutate(&repo, "main", &muts).unwrap();
    assert_eq!(files.len(), 2);
    let a: serde_json::Value = serde_json::from_slice(files.get("a.json").unwrap()).unwrap();
    assert_eq!(a["k"], "second");
    let b: serde_yaml::Value = serde_yaml::from_slice(files.get("b.yaml").unwrap()).unwrap();
    assert_eq!(b["top"]["inner"], "after");
}

#[test]
fn mutate_same_state_twice_is_identical() {
    let mut repo = InMemoryRepository::new();
    repo.insert_file(
        "main".to_string(),
        "cfg.json".to_string(),
        br#"{"image":{"tag":"v1"}}"#.to_vec(),
    );
    let muts = vec![Mutation::Json {
        file: "cfg.json".to_string(),
        changes: vec![("image/tag".to_string(), "v2".to_string())],
    }];
    let first = mutate(&repo, "main", &muts).unwrap();
    let second = mutate(&repo, "main", &muts).unwrap();
    assert_eq!(first.entries(), second.entries());
}

#[test]
fn mutate_missing_file_fails_whole_run() {
    let repo = InMemoryRepository::new();
    let muts = vec![Mutation::Json {
        file: "absent.json".to_string(),
        changes: vec![],
    }];
    assert!(matches!(mutate(&repo, "main", &muts), Err(Error::NotFound)));
}

#[test]
fn end_to_end_directive_patches_and_commits() {
    let mut repo = InMemoryRepository::new();
    repo.insert_file(
        "main".to_string(),
        "cfg.json".to_string(),
        br#"{"image":{"tag":"v1"},"keep":"me"}"#.to_vec(),
    );

    let muts = vec![Mutation::Json {
        file: "cfg.json".to_string(),
        changes: vec![("image/tag".to_string(), "v2".to_string())],
    }];
    let files = mutate(&repo, "main", &muts).unwrap();

    repo.commit(CommitRequest {
        branch: "main".to_string(),
        author: "shipit".to_string(),
        message: "Update deployment".to_string(),
        files,
    })
    .unwrap();

    let committed = repo.get("cfg.json", "main").unwrap();
    let parsed: serde_json::Value = serde_json::from_slice(&committed).unwrap();
    assert_eq!(parsed["image"]["tag"], "v2");
    assert_eq!(parsed["keep"], "me");
}
