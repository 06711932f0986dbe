use shipit::commit::{CommitRequest, FileList};
use shipit::error::Error;
use shipit::http::{HttpResponse, Method};
use shipit::providers::gitea::Gitea;
use shipit::providers::gitlab::{default_api_url, Action, Encoding, Gitlab};
use shipit::providers::Provider;

fn gitea() -> Gitea {
    Gitea::new("http://server".to_string(), "test".to_string(), "test".to_string())
}

fn gitlab() -> Gitlab {
    Gitlab::new(
        "http://server".to_string(),
        "test/test".to_string(),
        "gitlab-token".to_string(),
    )
}

#[test]
fn gitea_test_get() {
    let req = gitea().read_request("test", "master");
    assert_eq!(req.method, Method::Get);
    assert_eq!(req.url, "http://server/repos/test/raw/test");
    assert_eq!(req.query, vec![("ref".to_string(), "master".to_string())]);
    assert_eq!(
        req.headers,
        vec![("Authorization".to_string(), "Basic dGVzdA==".to_string())]
    );
    assert!(req.body.is_none());

    let body = Gitea::read_reply(HttpResponse { status: 200, body: b"hello!".to_vec() }).unwrap();
    assert_eq!(body, b"hello!".to_vec());
}

#[test]
fn gitea_test_commit_new() {
    let g = gitea();

    let probe = g.probe_request("test", "master");
    assert_eq!(probe.method, Method::Get);
    assert_eq!(probe.url, "http://server/repos/test/contents/test");
    assert_eq!(probe.query, vec![("ref".to_string(), "master".to_string())]);
    assert_eq!(
        probe.headers,
        vec![("Authorization".to_string(), "Basic dGVzdA==".to_string())]
    );

    // the file is absent: a create with an empty revision marker
    let sha = Gitea::probe_reply(HttpResponse { status: 404, body: vec![] }).unwrap();
    assert_eq!(sha, "");

    let mut files = FileList::new();
    files.insert("test".to_string(), b"test".to_vec());
    let payload = CommitRequest {
        branch: "master".to_string(),
        author: "test <author@email.tld>".to_string(),
        message: "test".to_string(),
        files,
    };
    let singles = Gitea::single_commits(&payload);
    assert_eq!(singles.len(), 1);
    assert_eq!(singles[0].message, "test");

    let put = g.write_request(&singles[0], &sha).unwrap();
    assert_eq!(put.method, Method::Put);
    assert_eq!(put.url, "http://server/repos/test/contents/test");
    assert_eq!(
        put.headers,
        vec![
            ("Authorization".to_string(), "Basic dGVzdA==".to_string()),
            ("Content-Type".to_string(), "application/json".to_string()),
        ]
    );
    assert_eq!(
        put.body.unwrap(),
        br#"{"author":{"email":"author@email.tld","name":"test"},"branch":"master","content":"dGVzdA==","message":"test","sha":""}"#.to_vec()
    );

    assert!(Gitea::write_reply(HttpResponse { status: 201, body: b"{}".to_vec() }).is_ok());
}

#[test]
fn gitea_test_commit_existing() {
    let g = gitea();

    let sha = Gitea::probe_reply(HttpResponse {
        status: 200,
        body: br#"{"content":"dGVzdA==","sha":"test"}"#.to_vec(),
    })
    .unwrap();
    assert_eq!(sha, "test");

    let mut files = FileList::new();
    files.insert("test".to_string(), b"test".to_vec());
    let payload = CommitRequest {
        branch: "master".to_string(),
        author: "test <author@email.tld>".to_string(),
        message: "test".to_string(),
        files,
    };
    let singles = Gitea::single_commits(&payload);
    let put = g.write_request(&singles[0], &sha).unwrap();
    assert_eq!(
        put.body.unwrap(),
        br#"{"author":{"email":"author@email.tld","name":"test"},"branch":"master","content":"dGVzdA==","message":"test","sha":"test"}"#.to_vec()
    );
}

#[test]
fn gitea_multi_file_commits_prefix_messages() {
    let mut files = FileList::new();
    files.insert("a.txt".to_string(), b"1".to_vec());
    files.insert("b.txt".to_string(), b"2".to_vec());
    let payload = CommitRequest {
        branch: "main".to_string(),
        author: "shipit".to_string(),
        message: "roll".to_string(),
        files,
    };
    let singles = Gitea::single_commits(&payload);
    // one write call per file, each message prefixed with its path
    assert_eq!(singles.len(), 2);
    assert_eq!(singles[0].message, "a.txt: roll");
    assert_eq!(singles[1].message, "b.txt: roll");
    assert_eq!(singles[0].files.len(), 1);
    assert_eq!(singles[1].files.len(), 1);
}

#[test]
fn gitea_errors_carry_the_remote_body() {
    let r = Gitea::read_reply(HttpResponse { status: 500, body: b"boom".to_vec() });
    match r {
        Err(Error::RepositoryError(m)) => assert_eq!(m, "boom"),
        other => panic!("unexpected {:?}", other),
    }
    let empty = CommitRequest { branch: "b".to_string(), ..Default::default() };
    assert!(matches!(
        gitea().write_request(&empty, "sha"),
        Err(Error::ConfigError)
    ));
}

#[test]
fn gitlab_test_get() {
    let req = gitlab().read_request("test/test.txt", "main");
    assert_eq!(req.method, Method::Get);
    assert_eq!(
        req.url,
        "http://server/projects/test%2Ftest/repository/files/test%2Ftest.txt/raw"
    );
    assert_eq!(req.query, vec![("ref".to_string(), "main".to_string())]);
    assert_eq!(
        req.headers,
        vec![("Authorization".to_string(), "Bearer gitlab-token".to_string())]
    );

    let body =
        Gitlab::read_reply(HttpResponse { status: 200, body: b"hello!".to_vec() }).unwrap();
    assert_eq!(body, b"hello!".to_vec());
}

#[test]
fn gitlab_test_commit_new() {
    let g = gitlab();

    let probe = g.probe_request("test/test.txt", "main");
    assert_eq!(probe.method, Method::Head);
    assert_eq!(
        probe.url,
        "http://server/projects/test%2Ftest/repository/files/test%2Ftest.txt/raw"
    );

    let txt_exists =
        Gitlab::probe_reply(&HttpResponse { status: 404, body: vec![] }).unwrap();
    let bin_exists =
        Gitlab::probe_reply(&HttpResponse { status: 404, body: vec![] }).unwrap();
    assert!(!txt_exists);
    assert!(!bin_exists);

    // 1234 written as two big-endian bytes is not valid UTF-8
    let non_utf8: Vec<u8> = 1234u16.to_be_bytes().to_vec();
    let mut files = FileList::new();
    files.insert("test.bin".to_string(), non_utf8);
    files.insert("test/test.txt".to_string(), b"test".to_vec());
    let payload = CommitRequest {
        branch: "main".to_string(),
        author: "test <author@email.tld>".to_string(),
        message: "test".to_string(),
        files,
    };

    let actions = Gitlab::build_actions(&payload, &vec![bin_exists, txt_exists]);
    assert_eq!(actions.len(), 2);
    assert_eq!(actions[0].action, Action::Create);
    assert_eq!(actions[0].encoding, Encoding::Base64);
    assert_eq!(actions[0].content, "BNI=");
    assert_eq!(actions[1].action, Action::Create);
    assert_eq!(actions[1].encoding, Encoding::Text);
    assert_eq!(actions[1].content, "test");

    let post = g.commit_request(&payload, &actions);
    assert_eq!(post.method, Method::Post);
    assert_eq!(post.url, "http://server/projects/test%2Ftest/repository/commits");
    assert_eq!(
        post.headers,
        vec![
            ("Authorization".to_string(), "Bearer gitlab-token".to_string()),
            ("Content-Type".to_string(), "application/json".to_string()),
            ("Accept".to_string(), "application/json".to_string()),
        ]
    );

    let body: serde_json::Value = serde_json::from_slice(&post.body.unwrap()).unwrap();
    assert_eq!(body["branch"], "main");
    assert_eq!(body["commit_message"], "test");
    assert_eq!(body["author_name"], "test");
    assert_eq!(body["author_email"], "author@email.tld");
    let actions = body["actions"].as_array().unwrap();
    assert_eq!(actions.len(), 2);
    assert_eq!(actions[0]["action"], "create");
    assert_eq!(actions[0]["file_path"], "test.bin");
    assert_eq!(actions[0]["content"], "BNI=");
    assert_eq!(actions[0]["encoding"], "base64");
    assert_eq!(actions[1]["action"], "create");
    assert_eq!(actions[1]["file_path"], "test/test.txt");
    assert_eq!(actions[1]["content"], "test");
    assert_eq!(actions[1]["encoding"], "text");

    let url = Gitlab::commit_reply(HttpResponse {
        status: 200,
        body: br#"{"web_url":"https://example.com"}"#.to_vec(),
    })
    .unwrap();
    assert_eq!(url, "https://example.com");
}

#[test]
fn gitlab_test_commit_existing() {
    let g = gitlab();

    let txt_exists =
        Gitlab::probe_reply(&HttpResponse { status: 200, body: vec![] }).unwrap();
    let bin_exists =
        Gitlab::probe_reply(&HttpResponse { status: 200, body: vec![] }).unwrap();
    assert!(txt_exists);
    assert!(bin_exists);

    let non_utf8: Vec<u8> = 1234u16.to_be_bytes().to_vec();
    let mut files = FileList::new();
    files.insert("test.bin".to_string(), non_utf8);
    files.insert("test/test.txt".to_string(), b"test".to_vec());
    let payload = CommitRequest {
        branch: "main".to_string(),
        author: "test <author@email.tld>".to_string(),
        message: "test".to_string(),
        files,
    };

    let actions = Gitlab::build_actions(&payload, &vec![bin_exists, txt_exists]);
    assert_eq!(actions[0].action, Action::Update);
    assert_eq!(actions[1].action, Action::Update);

    let post = g.commit_request(&payload, &actions);
    let body: serde_json::Value = serde_json::from_slice(&post.body.unwrap()).unwrap();
    let actions = body["actions"].as_array().unwrap();
    assert_eq!(actions[0]["action"], "update");
    assert_eq!(actions[0]["content"], "BNI=");
    assert_eq!(actions[0]["encoding"], "base64");
    assert_eq!(actions[1]["action"], "update");
    assert_eq!(actions[1]["encoding"], "text");
}

#[test]
fn gitlab_probe_other_errors_are_fatal() {
    assert!(matches!(
        Gitlab::probe_reply(&HttpResponse { status: 500, body: b"oops".to_vec() }),
        Err(Error::RepositoryError(_))
    ));
    // only not-found and success are control data; anything else is fatal
    assert!(matches!(
        Gitlab::probe_reply(&HttpResponse { status: 302, body: vec![] }),
        Err(Error::RepositoryError(_))
    ));
    assert!(matches!(
        Gitlab::read_reply(HttpResponse { status: 302, body: vec![] }),
        Err(Error::RepositoryError(_))
    ));
    assert_eq!(
        Gitlab::probe_reply(&HttpResponse { status: 204, body: vec![] }).unwrap(),
        true
    );
}

#[test]
fn gitlab_urls_escape_non_ascii() {
    let req = gitlab().read_request("caf\u{e9}.txt", "main");
    assert_eq!(
        req.url,
        "http://server/projects/test%2Ftest/repository/files/caf%C3%A9.txt/raw"
    );
}

#[test]
fn provider_names_and_default_url() {
    let g = Provider::Gitea {
        api_url: "u".to_string(),
        project_id: "p".to_string(),
        token: "t".to_string(),
    };
    let l = Provider::GitLab {
        api_url: "u".to_string(),
        project_id: "p".to_string(),
        token: "t".to_string(),
    };
    assert_eq!(g.name(), "gitea");
    assert_eq!(l.name(), "gitlab");
    assert_eq!(default_api_url(), "https://gitlab.com/api/v4");
}
