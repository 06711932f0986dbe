//! The GitLab-style provider: a multi-action commit API that writes a
//! whole file set atomically. Each file becomes one action — create or
//! update by an existence probe, carried as plain text when the content
//! is valid UTF-8 and base64 otherwise — and one POST submits them all.

use vstd::prelude::*;

use crate::codec::{base64_encode, base64_of, json_doc_of, lossy_decoded, parse_json,
    to_json_bytes, utf8_decode, utf8_lossy};
use crate::commit::CommitRequest;
use crate::doc::{arr_view, doc_view, get_key, lemma_arr_view, lemma_obj_view, obj_get, obj_view,
    Doc, DocV};
use crate::error::Error;
use crate::http::{is_success, str_pairs_view, HttpRequest, HttpResponse, Method};
use crate::pct::{pct_encode_segment, pct_encoded};
use crate::text::{author_email, author_name};
use vstd::utf8::{decode_utf8, valid_utf8};

verus! {

/// The public SaaS endpoint this provider defaults to.
pub fn default_api_url() -> (r: String)
    ensures
        r@ == "https://gitlab.com/api/v4"@,
{
    String::from_str("https://gitlab.com/api/v4")
}

/// The raw-content URL of a file, project and path percent-encoded as
/// path segments.
pub open spec fn gitlab_file_url(api: Seq<char>, proj: Seq<char>, path: Seq<char>) -> Seq<char> {
    api + "/projects/"@ + pct_encoded(proj) + "/repository/files/"@ + pct_encoded(path)
        + "/raw"@
}

/// The multi-action commit URL of a project.
pub open spec fn gitlab_commits_url(api: Seq<char>, proj: Seq<char>) -> Seq<char> {
    api + "/projects/"@ + pct_encoded(proj) + "/repository/commits"@
}

/// Whether a file is created or replaced.
#[derive(Clone, Copy, PartialEq, Eq, Structural, Debug)]
pub enum Action {
    Create,
    Update,
}

/// How a file's content travels: as literal text, or base64 for bytes
/// that are not valid text.
#[derive(Clone, Copy, PartialEq, Eq, Structural, Debug)]
pub enum Encoding {
    Text,
    Base64,
}

/// One file-level operation inside a commit.
pub struct CommitAction {
    pub action: Action,
    pub file_path: String,
    pub content: String,
    pub encoding: Encoding,
}

/// The JSON object one action contributes to the commit body.
pub open spec fn action_doc(a: CommitAction) -> DocV {
    DocV::Obj(
        seq![
            (
                "action"@,
                DocV::Str(if a.action is Create {
                    "create"@
                } else {
                    "update"@
                }),
            ),
            ("content"@, DocV::Str(a.content@)),
            (
                "encoding"@,
                DocV::Str(if a.encoding is Text {
                    "text"@
                } else {
                    "base64"@
                }),
            ),
            ("file_path"@, DocV::Str(a.file_path@)),
        ],
    )
}

/// The JSON body of one multi-action commit.
pub open spec fn gitlab_commit_doc(
    branch: Seq<char>,
    message: Seq<char>,
    actions: Seq<DocV>,
    name: Seq<char>,
    email: Seq<char>,
) -> DocV {
    DocV::Obj(
        seq![
            ("actions"@, DocV::Arr(actions)),
            ("author_email"@, DocV::Str(email)),
            ("author_name"@, DocV::Str(name)),
            ("branch"@, DocV::Str(branch)),
            ("commit_message"@, DocV::Str(message)),
        ],
    )
}

/// A GitLab-style connection: where the API lives, which project to
/// address, and the bearer token to present.
pub struct Gitlab {
    pub api_url: String,
    pub project_id: String,
    pub token: String,
}

impl Gitlab {
    pub fn new(api_url: String, project_id: String, token: String) -> (r: Gitlab)
        ensures
            r.api_url@ == api_url@,
            r.project_id@ == project_id@,
            r.token@ == token@,
    {
        Gitlab { api_url, project_id, token }
    }

    fn auth_header(&self) -> (r: String)
        ensures
            r@ == "Bearer "@ + self.token@,
    {
        let mut r = String::from_str("Bearer ");
        r.append(self.token.as_str());
        r
    }

    fn file_url(&self, path: &str) -> (r: String)
        ensures
            r@ == gitlab_file_url(self.api_url@, self.project_id@, path@),
    {
        let mut url = self.api_url.clone();
        url.append("/projects/");
        url.append(pct_encode_segment(self.project_id.as_str()).as_str());
        url.append("/repository/files/");
        url.append(pct_encode_segment(path).as_str());
        url.append("/raw");
        url
    }

    /// The read of one file's raw content at a reference.
    pub fn read_request(&self, path: &str, reference: &str) -> (r: HttpRequest)
        ensures
            r.method is Get,
            r.url@ == gitlab_file_url(self.api_url@, self.project_id@, path@),
            str_pairs_view(r.query@) == seq![("ref"@, reference@)],
            str_pairs_view(r.headers@) == seq![("Authorization"@, "Bearer "@ + self.token@)],
            r.body is None,
    {
        let url = self.file_url(path);
        let mut query: Vec<(String, String)> = Vec::new();
        query.push((String::from_str("ref"), String::from_str(reference)));
        let mut headers: Vec<(String, String)> = Vec::new();
        headers.push((String::from_str("Authorization"), self.auth_header()));
        proof {
            assert(str_pairs_view(query@) =~= seq![("ref"@, reference@)]);
            assert(str_pairs_view(headers@) =~= seq![
                ("Authorization"@, "Bearer "@ + self.token@),
            ]);
        }
        HttpRequest { method: Method::Get, url, query, headers, body: None }
    }

    /// What a read brought back: the raw bytes on success, the remote
    /// body as the error for any other status.
    pub fn read_reply(resp: HttpResponse) -> (r: Result<Vec<u8>, Error>)
        ensures
            is_success(resp.status) ==> (r matches Ok(c) && c@ == resp.body@),
            !is_success(resp.status) ==> (r matches Err(e) && e matches Error::RepositoryError(
                m,
            ) && m@ == lossy_decoded(resp.body@)),
    {
        if 200 <= resp.status && resp.status < 300 {
            Ok(resp.body)
        } else {
            Err(Error::RepositoryError(utf8_lossy(resp.body.as_slice())))
        }
    }

    /// The existence probe before a commit: a HEAD against the raw
    /// content endpoint.
    pub fn probe_request(&self, path: &str, reference: &str) -> (r: HttpRequest)
        ensures
            r.method is Head,
            r.url@ == gitlab_file_url(self.api_url@, self.project_id@, path@),
            str_pairs_view(r.query@) == seq![("ref"@, reference@)],
            str_pairs_view(r.headers@) == seq![("Authorization"@, "Bearer "@ + self.token@)],
            r.body is None,
    {
        let url = self.file_url(path);
        let mut query: Vec<(String, String)> = Vec::new();
        query.push((String::from_str("ref"), String::from_str(reference)));
        let mut headers: Vec<(String, String)> = Vec::new();
        headers.push((String::from_str("Authorization"), self.auth_header()));
        proof {
            assert(str_pairs_view(query@) =~= seq![("ref"@, reference@)]);
            assert(str_pairs_view(headers@) =~= seq![
                ("Authorization"@, "Bearer "@ + self.token@),
            ]);
        }
        HttpRequest { method: Method::Head, url, query, headers, body: None }
    }

    /// Whether the probed file exists: not found means create, a success
    /// means update, and any other status is fatal.
    pub fn probe_reply(resp: &HttpResponse) -> (r: Result<bool, Error>)
        ensures
            resp.status == 404 ==> r == Ok::<bool, Error>(false),
            resp.status != 404 && is_success(resp.status) ==> r == Ok::<bool, Error>(true),
            resp.status != 404 && !is_success(resp.status) ==> (r matches Err(e)
                && e matches Error::RepositoryError(m) && m@ == lossy_decoded(resp.body@)),
    {
        if resp.status == 404 {
            Ok(false)
        } else if 200 <= resp.status && resp.status < 300 {
            Ok(true)
        } else {
            Err(Error::RepositoryError(utf8_lossy(resp.body.as_slice())))
        }
    }

    /// Turns one file into its commit action: create or update as the
    /// probe decided, the content carried as text exactly when it is
    /// valid UTF-8 and as base64 otherwise.
    pub fn file_to_action(file_path: String, content: &[u8], exists: bool) -> (r: CommitAction)
        ensures
            r.action == (if exists {
                Action::Update
            } else {
                Action::Create
            }),
            r.file_path@ == file_path@,
            valid_utf8(content@) ==> (r.encoding is Text && r.content@ == decode_utf8(content@)),
            !valid_utf8(content@) ==> (r.encoding is Base64 && r.content@ == base64_of(content@)),
    {
        let action = if exists {
            Action::Update
        } else {
            Action::Create
        };
        match utf8_decode(content) {
            Some(text) => CommitAction { action, file_path, content: text, encoding: Encoding::Text },
            None => CommitAction {
                action,
                file_path,
                content: base64_encode(content),
                encoding: Encoding::Base64,
            },
        }
    }

    /// One action per file of the request, in order: create or update as
    /// the matching probe decided, the content encoded per file. This is
    /// the whole translation of a file set into a batch; issuing the one
    /// POST that carries it is the caller's part.
    pub fn build_actions(payload: &CommitRequest, exists: &Vec<bool>) -> (r: Vec<CommitAction>)
        requires
            exists@.len() == payload.files.entries_view().len(),
        ensures
            r@.len() == payload.files.entries_view().len(),
            forall|i: int|
                0 <= i < r@.len() ==> {
                    let fv = payload.files.entries_view();
                    &&& (#[trigger] r@[i]).file_path@ == fv[i].0
                    &&& r@[i].action == (if exists@[i] {
                        Action::Update
                    } else {
                        Action::Create
                    })
                    &&& (valid_utf8(fv[i].1) ==> r@[i].encoding is Text && r@[i].content@
                        == decode_utf8(fv[i].1))
                    &&& (!valid_utf8(fv[i].1) ==> r@[i].encoding is Base64 && r@[i].content@
                        == base64_of(fv[i].1))
                },
    {
        let ghost fv = payload.files.entries_view();
        let files = payload.files.entries();
        let n = files.len();
        let mut out: Vec<CommitAction> = Vec::new();
        let mut i: usize = 0;
        while i < n
            invariant
                0 <= i <= n,
                n == files@.len(),
                n == exists@.len(),
                fv == crate::commit::pairs_view(files@),
                out@.len() == i,
                forall|j: int|
                    0 <= j < i ==> {
                        &&& (#[trigger] out@[j]).file_path@ == fv[j].0
                        &&& out@[j].action == (if exists@[j] {
                            Action::Update
                        } else {
                            Action::Create
                        })
                        &&& (valid_utf8(fv[j].1) ==> out@[j].encoding is Text && out@[j].content@
                            == decode_utf8(fv[j].1))
                        &&& (!valid_utf8(fv[j].1) ==> out@[j].encoding is Base64 && out@[
                            j].content@ == base64_of(fv[j].1))
                    },
            decreases n - i,
        {
            let entry = &files[i];
            out.push(Self::file_to_action(entry.0.clone(), entry.1.as_slice(), exists[i]));
            i = i + 1;
        }
        out
    }

    /// One action as a document node.
    fn action_to_doc(a: &CommitAction) -> (r: Doc)
        ensures
            doc_view(r) == action_doc(*a),
    {
        let action_text = match a.action {
            Action::Create => String::from_str("create"),
            Action::Update => String::from_str("update"),
        };
        let encoding_text = match a.encoding {
            Encoding::Text => String::from_str("text"),
            Encoding::Base64 => String::from_str("base64"),
        };
        let mut entries: Vec<(String, Doc)> = Vec::new();
        entries.push((String::from_str("action"), Doc::Str(action_text)));
        entries.push((String::from_str("content"), Doc::Str(a.content.clone())));
        entries.push((String::from_str("encoding"), Doc::Str(encoding_text)));
        entries.push((String::from_str("file_path"), Doc::Str(a.file_path.clone())));
        proof {
            lemma_obj_view(entries@);
        }
        let r = Doc::Obj(entries);
        proof {
            let ev = obj_view(entries@);
            let sv = action_doc(*a)->Obj_0;
            assert(entries@.len() == 4);
            assert(ev.len() == 4);
            assert(ev[0] == (entries@[0].0@, doc_view(entries@[0].1)));
            assert(entries@[0].0@ == "action"@);
            assert(doc_view(entries@[0].1) == sv[0].1);
            assert(ev[0] =~~= sv[0]);
            assert(ev[1] =~~= sv[1]);
            assert(ev[2] =~~= sv[2]);
            assert(ev[3] =~~= sv[3]);
            assert(ev =~~= sv);
            assert(doc_view(r) =~~= action_doc(*a));
        }
        r
    }

    /// The POST that commits every action in one request: branch, commit
    /// message, the actions in caller order, and the author's name and
    /// email split from the request's author field.
    pub fn commit_request(&self, payload: &CommitRequest, actions: &Vec<CommitAction>) -> (r:
        HttpRequest)
        ensures
            r.method is Post,
            r.url@ == gitlab_commits_url(self.api_url@, self.project_id@),
            str_pairs_view(r.headers@) == seq![
                ("Authorization"@, "Bearer "@ + self.token@),
                ("Content-Type"@, "application/json"@),
                ("Accept"@, "application/json"@),
            ],
            str_pairs_view(r.query@) == Seq::<(Seq<char>, Seq<char>)>::empty(),
            r.body matches Some(b) && b@ == crate::codec::json_bytes_of(
                gitlab_commit_doc(
                    payload.branch@,
                    payload.message@,
                    actions@.map(|i: int, a: CommitAction| action_doc(a)),
                    author_name(payload.author@),
                    author_email(payload.author@),
                ),
            ),
    {
        let (name, email) = payload.split_author();
        let ghost action_views = actions@.map(|i: int, a: CommitAction| action_doc(a));

        let mut action_docs: Vec<Doc> = Vec::new();
        let n = actions.len();
        let mut i: usize = 0;
        while i < n
            invariant
                0 <= i <= n,
                n == actions@.len(),
                action_views == actions@.map(|k: int, a: CommitAction| action_doc(a)),
                action_docs@.len() == i,
                forall|j: int|
                    0 <= j < i ==> doc_view(#[trigger] action_docs@[j]) == action_views[j],
            decreases n - i,
        {
            action_docs.push(Self::action_to_doc(&actions[i]));
            i = i + 1;
        }
        proof {
            lemma_arr_view(action_docs@);
            assert(arr_view(action_docs@) =~= action_views);
        }

        let mut entries: Vec<(String, Doc)> = Vec::new();
        entries.push((String::from_str("actions"), Doc::Arr(action_docs)));
        entries.push((String::from_str("author_email"), Doc::Str(email)));
        entries.push((String::from_str("author_name"), Doc::Str(name)));
        entries.push((String::from_str("branch"), Doc::Str(payload.branch.clone())));
        entries.push((String::from_str("commit_message"), Doc::Str(payload.message.clone())));
        let ghost oe = entries@;
        proof {
            lemma_obj_view(oe);
        }
        let body_doc = Doc::Obj(entries);
        proof {
            let sv = gitlab_commit_doc(
                payload.branch@,
                payload.message@,
                action_views,
                author_name(payload.author@),
                author_email(payload.author@),
            )->Obj_0;
            let ov = obj_view(oe);
            assert(ov.len() == 5);
            assert(ov[0] == (oe[0].0@, doc_view(oe[0].1)));
            assert(ov[0] =~~= sv[0]);
            assert(ov[1] =~~= sv[1]);
            assert(ov[2] =~~= sv[2]);
            assert(ov[3] =~~= sv[3]);
            assert(ov[4] =~~= sv[4]);
            assert(ov =~~= sv);
            assert(doc_view(body_doc) =~~= gitlab_commit_doc(
                payload.branch@,
                payload.message@,
                action_views,
                author_name(payload.author@),
                author_email(payload.author@),
            ));
        }
        let body = to_json_bytes(&body_doc);

        let mut url = self.api_url.clone();
        url.append("/projects/");
        url.append(pct_encode_segment(self.project_id.as_str()).as_str());
        url.append("/repository/commits");
        let mut headers: Vec<(String, String)> = Vec::new();
        headers.push((String::from_str("Authorization"), self.auth_header()));
        headers.push((String::from_str("Content-Type"), String::from_str("application/json")));
        headers.push((String::from_str("Accept"), String::from_str("application/json")));
        proof {
            assert(str_pairs_view(headers@) =~= seq![
                ("Authorization"@, "Bearer "@ + self.token@),
                ("Content-Type"@, "application/json"@),
                ("Accept"@, "application/json"@),
            ]);
            assert(str_pairs_view(Seq::<(String, String)>::empty()) =~= Seq::<
                (Seq<char>, Seq<char>),
            >::empty());
        }
        HttpRequest { method: Method::Post, url, query: Vec::new(), headers, body: Some(body) }
    }

    /// What a commit brought back: the commit's web URL on success (an
    /// informational value, surfaced for logging), the remote body as
    /// the error for any other status, and an error for a success reply
    /// that carries no URL.
    pub fn commit_reply(resp: HttpResponse) -> (r: Result<String, Error>)
        ensures
            !is_success(resp.status) ==> (r matches Err(e) && e matches Error::RepositoryError(
                m,
            ) && m@ == lossy_decoded(resp.body@)),
            is_success(resp.status) ==> match json_doc_of(resp.body@) {
                Some(DocV::Obj(es)) => match obj_get(es, "web_url"@) {
                    Some(DocV::Str(u)) => r matches Ok(ru) && ru@ == u,
                    _ => r is Err,
                },
                _ => r is Err,
            },
    {
        if !(200 <= resp.status && resp.status < 300) {
            return Err(Error::RepositoryError(utf8_lossy(resp.body.as_slice())));
        }
        let parsed = match parse_json(resp.body.as_slice()) {
            Some(d) => d,
            None => {
                return Err(Error::RepositoryError(String::from_str(
                    "commit reply is not JSON",
                )));
            },
        };
        match get_key(&parsed, &String::from_str("web_url")) {
            Some(child) => match child {
                Doc::Str(u) => Ok(u.clone()),
                _ => Err(Error::RepositoryError(String::from_str(
                    "commit reply carries no web_url",
                ))),
            },
            None => Err(Error::RepositoryError(String::from_str(
                "commit reply carries no web_url",
            ))),
        }
    }
}

} // verus!
