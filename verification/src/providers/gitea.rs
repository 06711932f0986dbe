//! The Gitea-style provider: a per-file PUT API with no atomic multi-file
//! commit. A commit request decomposes into one probe-and-write sequence
//! per file; with more than one file each per-file message is prefixed by
//! the file's path to tell the resulting commits apart. A failure midway
//! leaves the files already written in place.

use vstd::prelude::*;

use crate::codec::{base64_encode, base64_of, json_doc_of, lossy_decoded, parse_json,
    to_json_bytes, utf8_lossy};
use crate::commit::{CommitRequest, FileList};
use crate::doc::{doc_view, get_key, lemma_obj_view, obj_get, obj_view, Doc, DocV};
use crate::error::Error;
use crate::http::{is_success, str_pairs_view, HttpRequest, HttpResponse, Method};
use crate::text::{author_email, author_name};
use vstd::utf8::encode_utf8;

verus! {

/// The `Basic` authorization header value for a credential.
pub open spec fn basic_auth(cred: Seq<char>) -> Seq<char> {
    "Basic "@ + base64_of(encode_utf8(cred))
}

/// The raw-content URL of a file.
pub open spec fn gitea_raw_url(api: Seq<char>, proj: Seq<char>, path: Seq<char>) -> Seq<char> {
    api + "/repos/"@ + proj + "/raw/"@ + path
}

/// The contents (metadata) URL of a file.
pub open spec fn gitea_contents_url(api: Seq<char>, proj: Seq<char>, path: Seq<char>) -> Seq<
    char,
> {
    api + "/repos/"@ + proj + "/contents/"@ + path
}

/// The JSON body of one single-file write: author name and email, branch,
/// base64 content, message, and the revision marker of the file being
/// replaced (empty for a new file).
pub open spec fn gitea_write_doc(
    name: Seq<char>,
    email: Seq<char>,
    branch: Seq<char>,
    content_b64: Seq<char>,
    message: Seq<char>,
    sha: Seq<char>,
) -> DocV {
    DocV::Obj(
        seq![
            (
                "author"@,
                DocV::Obj(seq![("email"@, DocV::Str(email)), ("name"@, DocV::Str(name))]),
            ),
            ("branch"@, DocV::Str(branch)),
            ("content"@, DocV::Str(content_b64)),
            ("message"@, DocV::Str(message)),
            ("sha"@, DocV::Str(sha)),
        ],
    )
}

/// A Gitea-style connection: where the API lives, which project to
/// address, and the basic-auth credential to present.
pub struct Gitea {
    pub api_url: String,
    pub project_id: String,
    pub credentials: String,
}

impl Gitea {
    pub fn new(api_url: String, project_id: String, credentials: String) -> (r: Gitea)
        ensures
            r.api_url@ == api_url@,
            r.project_id@ == project_id@,
            r.credentials@ == credentials@,
    {
        Gitea { api_url, project_id, credentials }
    }

    fn auth_header(&self) -> (r: String)
        ensures
            r@ == basic_auth(self.credentials@),
    {
        let b64 = base64_encode(self.credentials.as_str().as_bytes());
        let mut r = String::from_str("Basic ");
        r.append(b64.as_str());
        r
    }

    /// The read of one file's raw content at a reference.
    pub fn read_request(&self, path: &str, reference: &str) -> (r: HttpRequest)
        ensures
            r.method is Get,
            r.url@ == gitea_raw_url(self.api_url@, self.project_id@, path@),
            str_pairs_view(r.query@) == seq![("ref"@, reference@)],
            str_pairs_view(r.headers@) == seq![("Authorization"@, basic_auth(self.credentials@))],
            r.body is None,
    {
        let mut url = self.api_url.clone();
        url.append("/repos/");
        url.append(self.project_id.as_str());
        url.append("/raw/");
        url.append(path);
        let mut query: Vec<(String, String)> = Vec::new();
        query.push((String::from_str("ref"), String::from_str(reference)));
        let mut headers: Vec<(String, String)> = Vec::new();
        headers.push((String::from_str("Authorization"), self.auth_header()));
        proof {
            assert(str_pairs_view(query@) =~= seq![("ref"@, reference@)]);
            assert(str_pairs_view(headers@) =~= seq![
                ("Authorization"@, basic_auth(self.credentials@)),
            ]);
        }
        HttpRequest { method: Method::Get, url, query, headers, body: None }
    }

    /// What a read brought back: the raw bytes on success, the remote
    /// body as the error otherwise.
    pub fn read_reply(resp: HttpResponse) -> (r: Result<Vec<u8>, Error>)
        ensures
            is_success(resp.status) ==> (r matches Ok(c) && c@ == resp.body@),
            !is_success(resp.status) ==> (r matches Err(e) && e matches Error::RepositoryError(m)
                && m@ == lossy_decoded(resp.body@)),
    {
        if 200 <= resp.status && resp.status < 300 {
            Ok(resp.body)
        } else {
            Err(Error::RepositoryError(utf8_lossy(resp.body.as_slice())))
        }
    }

    /// The existence probe before a write: a read of the file's metadata.
    pub fn probe_request(&self, path: &str, reference: &str) -> (r: HttpRequest)
        ensures
            r.method is Get,
            r.url@ == gitea_contents_url(self.api_url@, self.project_id@, path@),
            str_pairs_view(r.query@) == seq![("ref"@, reference@)],
            str_pairs_view(r.headers@) == seq![("Authorization"@, basic_auth(self.credentials@))],
            r.body is None,
    {
        let mut url = self.api_url.clone();
        url.append("/repos/");
        url.append(self.project_id.as_str());
        url.append("/contents/");
        url.append(path);
        let mut query: Vec<(String, String)> = Vec::new();
        query.push((String::from_str("ref"), String::from_str(reference)));
        let mut headers: Vec<(String, String)> = Vec::new();
        headers.push((String::from_str("Authorization"), self.auth_header()));
        proof {
            assert(str_pairs_view(query@) =~= seq![("ref"@, reference@)]);
            assert(str_pairs_view(headers@) =~= seq![
                ("Authorization"@, basic_auth(self.credentials@)),
            ]);
        }
        HttpRequest { method: Method::Get, url, query, headers, body: None }
    }

    /// The revision marker a probe yields: empty for a file that is not
    /// there (a create), the `sha` field of the returned metadata for one
    /// that is, and an error for any other outcome.
    pub fn probe_reply(resp: HttpResponse) -> (r: Result<String, Error>)
        ensures
            resp.status == 404 ==> (r matches Ok(s) && s@ == Seq::<char>::empty()),
            resp.status != 404 && !is_success(resp.status) ==> (r matches Err(e)
                && e matches Error::RepositoryError(m) && m@ == lossy_decoded(resp.body@)),
            resp.status != 404 && is_success(resp.status) ==> match json_doc_of(resp.body@) {
                Some(DocV::Obj(es)) => match obj_get(es, "sha"@) {
                    Some(DocV::Str(s)) => r matches Ok(rs) && rs@ == s,
                    _ => r is Err,
                },
                _ => r is Err,
            },
    {
        if resp.status == 404 {
            return Ok(String::new());
        }
        if !(200 <= resp.status && resp.status < 300) {
            return Err(Error::RepositoryError(utf8_lossy(resp.body.as_slice())));
        }
        let parsed = match parse_json(resp.body.as_slice()) {
            Some(d) => d,
            None => {
                return Err(Error::RepositoryError(String::from_str(
                    "file metadata is not JSON",
                )));
            },
        };
        match get_key(&parsed, &String::from_str("sha")) {
            Some(child) => match child {
                Doc::Str(s) => Ok(s.clone()),
                _ => Err(Error::RepositoryError(String::from_str(
                    "file metadata carries no sha",
                ))),
            },
            None => Err(Error::RepositoryError(String::from_str(
                "file metadata carries no sha",
            ))),
        }
    }

    /// Decomposes one request into its per-file single commits: same
    /// branch and author throughout, one file each, and with more than
    /// one file each message prefixed by the file's path.
    pub fn single_commits(payload: &CommitRequest) -> (r: Vec<CommitRequest>)
        ensures
            r@.len() == payload.files.entries_view().len(),
            forall|i: int|
                0 <= i < r@.len() ==> {
                    let fv = payload.files.entries_view();
                    &&& (#[trigger] r@[i]).branch@ == payload.branch@
                    &&& r@[i].author@ == payload.author@
                    &&& r@[i].files.entries_view() =~= seq![fv[i]]
                    &&& r@[i].message@ == (if fv.len() > 1 {
                        fv[i].0 + ": "@ + payload.message@
                    } else {
                        payload.message@
                    })
                },
    {
        let ghost fv = payload.files.entries_view();
        let files = payload.files.entries();
        let multiple = files.len() > 1;
        let mut out: Vec<CommitRequest> = Vec::new();
        let n = files.len();
        let mut i: usize = 0;
        while i < n
            invariant
                0 <= i <= n,
                n == files@.len(),
                fv == crate::commit::pairs_view(files@),
                multiple == (fv.len() > 1),
                out@.len() == i,
                forall|j: int|
                    0 <= j < i ==> {
                        &&& (#[trigger] out@[j]).branch@ == payload.branch@
                        &&& out@[j].author@ == payload.author@
                        &&& out@[j].files.entries_view() =~= seq![fv[j]]
                        &&& out@[j].message@ == (if fv.len() > 1 {
                            fv[j].0 + ": "@ + payload.message@
                        } else {
                            payload.message@
                        })
                    },
            decreases n - i,
        {
            let entry = &files[i];
            let message = if multiple {
                let mut m = entry.0.clone();
                m.append(": ");
                m.append(payload.message.as_str());
                m
            } else {
                payload.message.clone()
            };
            let mut files_one = FileList::new();
            files_one.insert(entry.0.clone(), crate::repository::clone_bytes(&entry.1));
            proof {
                assert(files_one.entries_view() =~= seq![fv[i as int]]);
            }
            let single = CommitRequest {
                branch: payload.branch.clone(),
                author: payload.author.clone(),
                message,
                files: files_one,
            };
            out.push(single);
            i = i + 1;
        }
        out
    }

    /// The PUT that writes one file: the body carries author, branch,
    /// base64 content, message and the probed revision marker. A request
    /// without a file is malformed.
    pub fn write_request(&self, single: &CommitRequest, sha: &str) -> (r: Result<
        HttpRequest,
        Error,
    >)
        ensures
            single.files.entries_view().len() == 0 ==> r == Err::<HttpRequest, Error>(
                Error::ConfigError,
            ),
            single.files.entries_view().len() > 0 ==> (r matches Ok(req) && ({
                let fv = single.files.entries_view();
                &&& req.method is Put
                &&& req.url@ == gitea_contents_url(self.api_url@, self.project_id@, fv[0].0)
                &&& str_pairs_view(req.query@) == Seq::<(Seq<char>, Seq<char>)>::empty()
                &&& str_pairs_view(req.headers@) == seq![
                    ("Authorization"@, basic_auth(self.credentials@)),
                    ("Content-Type"@, "application/json"@),
                ]
                &&& req.body matches Some(b) && b@ == crate::codec::json_bytes_of(
                    gitea_write_doc(
                        author_name(single.author@),
                        author_email(single.author@),
                        single.branch@,
                        base64_of(fv[0].1),
                        single.message@,
                        sha@,
                    ),
                )
            })),
    {
        let files = single.files.entries();
        if files.len() == 0 {
            return Err(Error::ConfigError);
        }
        let entry = &files[0];
        let (name, email) = single.split_author();
        let content_b64 = base64_encode(entry.1.as_slice());

        let mut author_entries: Vec<(String, Doc)> = Vec::new();
        author_entries.push((String::from_str("email"), Doc::Str(email)));
        author_entries.push((String::from_str("name"), Doc::Str(name)));
        let ghost ae = author_entries@;
        proof {
            lemma_obj_view(ae);
        }
        let author_doc = Doc::Obj(author_entries);
        let ghost author_spec = DocV::Obj(
            seq![
                ("email"@, DocV::Str(author_email(single.author@))),
                ("name"@, DocV::Str(author_name(single.author@))),
            ],
        );
        proof {
            let iv = obj_view(ae);
            assert(iv.len() == 2);
            assert(iv[0] == (ae[0].0@, doc_view(ae[0].1)));
            assert(iv[0] =~~= ("email"@, DocV::Str(author_email(single.author@))));
            assert(iv[1] =~~= ("name"@, DocV::Str(author_name(single.author@))));
            assert(iv =~~= author_spec->Obj_0);
            assert(doc_view(author_doc) =~~= author_spec);
        }

        let mut entries: Vec<(String, Doc)> = Vec::new();
        entries.push((String::from_str("author"), author_doc));
        entries.push((String::from_str("branch"), Doc::Str(single.branch.clone())));
        entries.push((String::from_str("content"), Doc::Str(content_b64)));
        entries.push((String::from_str("message"), Doc::Str(single.message.clone())));
        entries.push((String::from_str("sha"), Doc::Str(String::from_str(sha))));
        let ghost oe = entries@;
        proof {
            lemma_obj_view(oe);
        }
        let body_doc = Doc::Obj(entries);
        proof {
            let fv = single.files.entries_view();
            assert(fv[0] == (files@[0].0@, files@[0].1@));
            let sv = gitea_write_doc(
                author_name(single.author@),
                author_email(single.author@),
                single.branch@,
                base64_of(fv[0].1),
                single.message@,
                sha@,
            )->Obj_0;
            let ov = obj_view(oe);
            assert(ov.len() == 5);
            assert(ov[0] == (oe[0].0@, doc_view(oe[0].1)));
            assert(ov[0] =~~= sv[0]);
            assert(ov[1] =~~= sv[1]);
            assert(ov[2] =~~= sv[2]);
            assert(ov[3] =~~= sv[3]);
            assert(ov[4] =~~= sv[4]);
            assert(ov =~~= sv);
            assert(doc_view(body_doc) =~~= gitea_write_doc(
                author_name(single.author@),
                author_email(single.author@),
                single.branch@,
                base64_of(fv[0].1),
                single.message@,
                sha@,
            ));
        }
        let body = to_json_bytes(&body_doc);

        let mut url = self.api_url.clone();
        url.append("/repos/");
        url.append(self.project_id.as_str());
        url.append("/contents/");
        url.append(entry.0.as_str());
        let mut headers: Vec<(String, String)> = Vec::new();
        headers.push((String::from_str("Authorization"), self.auth_header()));
        headers.push((String::from_str("Content-Type"), String::from_str("application/json")));
        proof {
            assert(str_pairs_view(headers@) =~= seq![
                ("Authorization"@, basic_auth(self.credentials@)),
                ("Content-Type"@, "application/json"@),
            ]);
            assert(str_pairs_view(Seq::<(String, String)>::empty()) =~= Seq::<
                (Seq<char>, Seq<char>),
            >::empty());
        }
        Ok(
            HttpRequest {
                method: Method::Put,
                url,
                query: Vec::new(),
                headers,
                body: Some(body),
            },
        )
    }

    /// A write settles with any success status; anything else carries the
    /// remote body out as the error.
    pub fn write_reply(resp: HttpResponse) -> (r: Result<(), Error>)
        ensures
            is_success(resp.status) ==> r is Ok,
            !is_success(resp.status) ==> (r matches Err(e) && e matches Error::RepositoryError(m)
                && m@ == lossy_decoded(resp.body@)),
    {
        if 200 <= resp.status && resp.status < 300 {
            Ok(())
        } else {
            Err(Error::RepositoryError(utf8_lossy(resp.body.as_slice())))
        }
    }
}

} // verus!
