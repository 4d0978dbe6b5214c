//! The requests made to the speech engine and the HTTP form of each.

use vstd::prelude::*;
use vstd::string::StringExecFns;
use crate::dictionary::{DictionaryEntry, WordType, effective_word_type, set_word_type, word_type_name};
use crate::error::RelayError;
use crate::text::{dec, decimal_chars, string_of};

verus! {

/// One call to the speech engine.
pub enum EngineRequest {
    /// Ask for a synthesis plan for `text`.
    AudioQuery { text: String, speaker: u8 },
    /// Synthesize audio from a plan.
    Synthesis { query: String, speaker: u8 },
    /// Fetch the whole dictionary document.
    GetDictionary,
    /// Add an entry.
    AddWord { entry: DictionaryEntry },
    /// Rewrite an entry.
    RewriteWord { entry: DictionaryEntry },
    /// Delete the entry with a remote id.
    DeleteWord { id: String },
    /// Import a dictionary document, overriding entries with the same surface.
    ImportDictionary { document: String },
}

#[derive(Clone, Copy, Debug, PartialEq, Eq, Structural)]
pub enum HttpMethod {
    Get,
    Post,
    Put,
    Delete,
}

/// An HTTP request relative to the engine's base URL.
pub struct HttpRequest {
    pub method: HttpMethod,
    pub path: String,
    /// Query parameters, in order, before encoding.
    pub query: Vec<(String, String)>,
    pub body: Option<String>,
}

pub struct HttpView {
    pub method: HttpMethod,
    pub path: Seq<char>,
    pub query: Seq<(Seq<char>, Seq<char>)>,
    pub body: Option<Seq<char>>,
}

impl View for HttpRequest {
    type V = HttpView;

    open spec fn view(&self) -> HttpView {
        HttpView {
            method: self.method,
            path: self.path@,
            query: Seq::new(self.query@.len(), |i: int| (self.query@[i].0@, self.query@[i].1@)),
            body: match self.body {
                Some(b) => Some(b@),
                None => None,
            },
        }
    }
}

/// The query parameters that add and rewrite send for an entry.
pub open spec fn word_query(e: DictionaryEntry) -> Seq<(Seq<char>, Seq<char>)> {
    seq![
        ("surface"@, e.surface@),
        ("pronunciation"@, e.pronunciation@),
        ("accent_type"@, dec(e.accent_type as nat)),
        ("word_type"@, word_type_name(effective_word_type(e.word_type))),
        ("priority"@, "10"@),
    ]
}

/// The HTTP form of each engine request.
pub open spec fn http_form(req: EngineRequest) -> HttpView {
    match req {
        EngineRequest::AudioQuery { text, speaker } => HttpView {
            method: HttpMethod::Post,
            path: "/audio_query"@,
            query: seq![("text"@, text@), ("speaker"@, dec(speaker as nat))],
            body: None,
        },
        EngineRequest::Synthesis { query, speaker } => HttpView {
            method: HttpMethod::Post,
            path: "/synthesis"@,
            query: seq![("speaker"@, dec(speaker as nat))],
            body: Some(query@),
        },
        EngineRequest::GetDictionary => HttpView {
            method: HttpMethod::Get,
            path: "/user_dict"@,
            query: Seq::empty(),
            body: None,
        },
        EngineRequest::AddWord { entry } => HttpView {
            method: HttpMethod::Post,
            path: "/user_dict_word"@,
            query: word_query(entry),
            body: None,
        },
        EngineRequest::RewriteWord { entry } => HttpView {
            method: HttpMethod::Put,
            path: "/user_dict_word"@,
            query: word_query(entry),
            body: None,
        },
        EngineRequest::DeleteWord { id } => HttpView {
            method: HttpMethod::Delete,
            path: "/user_dict_word/"@ + id@,
            query: Seq::empty(),
            body: None,
        },
        EngineRequest::ImportDictionary { document } => HttpView {
            method: HttpMethod::Post,
            path: "/import_user_dict"@,
            query: seq![("override"@, "true"@)],
            body: Some(document@),
        },
    }
}

fn decimal_string(n: u8) -> (r: String)
    ensures
        r@ == dec(n as nat),
{
    string_of(&decimal_chars(n as u64))
}

fn pair(k: &str, v: String) -> (r: (String, String))
    ensures
        r.0@ == k@,
        r.1@ == v@,
{
    (String::from_str(k), v)
}

fn word_query_of(e: &DictionaryEntry) -> (r: Vec<(String, String)>)
    ensures
        Seq::new(r@.len(), |i: int| (r@[i].0@, r@[i].1@)) == word_query(*e),
{
    let word_type = match e.word_type {
        Some(w) => w,
        None => WordType::ProperNoun,
    };
    let mut q: Vec<(String, String)> = Vec::new();
    q.push(pair("surface", e.surface.clone()));
    q.push(pair("pronunciation", e.pronunciation.clone()));
    q.push(pair("accent_type", decimal_string(e.accent_type)));
    q.push(pair("word_type", set_word_type(word_type)));
    q.push(pair("priority", String::from_str("10")));
    assert(Seq::new(q@.len(), |i: int| (q@[i].0@, q@[i].1@)) =~= word_query(*e));
    q
}

/// The HTTP request for an engine request.
pub fn to_http(req: &EngineRequest) -> (r: HttpRequest)
    ensures
        r@ == http_form(*req),
{
    let empty: Vec<(String, String)> = Vec::new();
    match req {
        EngineRequest::AudioQuery { text, speaker } => {
            let query = vec![pair("text", text.clone()), pair("speaker", decimal_string(*speaker))];
            let r = HttpRequest { method: HttpMethod::Post, path: String::from_str("/audio_query"), query, body: None };
            assert(r@.query =~= http_form(*req).query);
            r
        },
        EngineRequest::Synthesis { query, speaker } => {
            let q = vec![pair("speaker", decimal_string(*speaker))];
            let r = HttpRequest { method: HttpMethod::Post, path: String::from_str("/synthesis"), query: q, body: Some(query.clone()) };
            assert(r@.query =~= http_form(*req).query);
            r
        },
        EngineRequest::GetDictionary => {
            let r = HttpRequest { method: HttpMethod::Get, path: String::from_str("/user_dict"), query: empty, body: None };
            assert(r@.query =~= http_form(*req).query);
            r
        },
        EngineRequest::AddWord { entry } => {
            HttpRequest { method: HttpMethod::Post, path: String::from_str("/user_dict_word"), query: word_query_of(entry), body: None }
        },
        EngineRequest::RewriteWord { entry } => {
            HttpRequest { method: HttpMethod::Put, path: String::from_str("/user_dict_word"), query: word_query_of(entry), body: None }
        },
        EngineRequest::DeleteWord { id } => {
            let path = String::from_str("/user_dict_word/").concat(id.as_str());
            let r = HttpRequest { method: HttpMethod::Delete, path, query: empty, body: None };
            assert(r@.query =~= http_form(*req).query);
            r
        },
        EngineRequest::ImportDictionary { document } => {
            let q = vec![pair("override", String::from_str("true"))];
            let r = HttpRequest { method: HttpMethod::Post, path: String::from_str("/import_user_dict"), query: q, body: Some(document.clone()) };
            assert(r@.query =~= http_form(*req).query);
            r
        },
    }
}

/// What an exchange with the engine came to: `None` where no response
/// arrived, else the response's status code.
pub open spec fn reply_outcome(status: Option<u16>) -> Result<(), RelayError> {
    match status {
        None => Err(RelayError::EngineUnavailable),
        Some(s) => if 200 <= s < 300 {
            Ok(())
        } else {
            Err(RelayError::EngineRejected { status: s })
        },
    }
}

/// Classifies an exchange with the engine: a transport failure, a rejection
/// (status outside `200..300`), or success.
pub fn check_reply(status: Option<u16>) -> (r: Result<(), RelayError>)
    ensures
        r == reply_outcome(status),
{
    match status {
        None => Err(RelayError::EngineUnavailable),
        Some(s) => if 200 <= s && s < 300 {
            Ok(())
        } else {
            Err(RelayError::EngineRejected { status: s })
        },
    }
}

} // verus!
