use vstd::prelude::*;

use crate::text::{chars_of, contains, ends_with, str_contains, str_ends_with, string_of_range};

verus! {

/// A response of the HTTP front end: a status code and a body. Bodies of
/// successful responses are HTML.
#[derive(Debug, Clone)]
pub struct Reply {
    pub status: u16,
    pub body: String,
}

/// What the front end has to do next for a `GET`.
pub enum Action {
    /// Read the index document and render it under the index name.
    ReadIndex,
    /// Find out whether this document, relative to the root, exists.
    CheckExists(String),
    /// Read this document and render it as a template.
    ReadTemplate(String),
    /// Read this document and send it as it is.
    ReadStatic(String),
    /// Send this reply.
    Respond(Reply),
}

/// `s` without its leading slashes.
pub open spec fn strip_slashes(s: Seq<char>) -> Seq<char>
    decreases s.len(),
{
    if s.len() > 0 && s[0] == '/' {
        strip_slashes(s.drop_first())
    } else {
        s
    }
}

/// The first step for a request path, before anything is read.
pub enum RouteModel {
    Index,
    Forbidden,
    Lookup(Seq<char>),
}

/// Slashes alone (or nothing) name the index; a path holding `..` is refused;
/// the index name itself names the index; any other path is looked up.
pub open spec fn route_model(path: Seq<char>, index_name: Seq<char>) -> RouteModel {
    let rel = strip_slashes(path);
    if rel.len() == 0 {
        RouteModel::Index
    } else if contains(rel, ".."@) {
        RouteModel::Forbidden
    } else if rel == index_name {
        RouteModel::Index
    } else {
        RouteModel::Lookup(rel)
    }
}

/// The body of the reply when the index document is missing.
pub open spec fn index_missing_body() -> Seq<char> {
    "Cannot get '/': File Not Found"@
}

/// The body of the reply when a document is missing.
pub open spec fn missing_body(rel: Seq<char>) -> Seq<char> {
    "Cannot get '/"@ + rel + "': File Not Found"@
}

/// The first step for a `GET` of `path` (the part of the URL after the host).
pub fn route_request(path: &str, index_name: &str) -> (r: Action)
    ensures
        match route_model(path@, index_name@) {
            RouteModel::Index => r is ReadIndex,
            RouteModel::Forbidden => r matches Action::Respond(rep) && rep.status == 403
                && rep.body@ == "Invalid path"@,
            RouteModel::Lookup(rel) => r matches Action::CheckExists(p) && p@ == rel,
        },
{
    let v = chars_of(path);
    let n = v.len();
    let mut i: usize = 0;
    assert(v@.subrange(0, n as int) =~= path@);
    while i < n && v[i] == '/'
        invariant
            i <= n,
            n == v@.len(),
            strip_slashes(path@) == strip_slashes(v@.subrange(i as int, n as int)),
        decreases n - i,
    {
        assert(v@.subrange(i as int, n as int).drop_first() =~= v@.subrange(i + 1, n as int));
        i += 1;
    }
    assert(!(i < n && v@[i as int] == '/') ==> strip_slashes(v@.subrange(i as int, n as int))
        == v@.subrange(i as int, n as int));
    if i == n {
        return Action::ReadIndex;
    }
    let rel = string_of_range(&v, i, n);
    if str_contains(rel.as_str(), "..") {
        return Action::Respond(Reply { status: 403, body: String::from_str("Invalid path") });
    }
    if rel == String::from_str(index_name) {
        return Action::ReadIndex;
    }
    Action::CheckExists(rel)
}

/// The step after looking a document up: a missing one gets a 404, a template
/// (name ending in `.jhp`) is rendered, anything else is sent as it is.
pub fn after_lookup(rel: String, exists: bool) -> (r: Action)
    ensures
        !exists ==> (r matches Action::Respond(rep) && rep.status == 404 && rep.body@
            == missing_body(rel@)),
        exists && ends_with(rel@, ".jhp"@) ==> (r matches Action::ReadTemplate(p) && p@ == rel@),
        exists && !ends_with(rel@, ".jhp"@) ==> (r matches Action::ReadStatic(p) && p@ == rel@),
{
    if !exists {
        let mut body = String::from_str("Cannot get '/");
        body.append(rel.as_str());
        body.append("': File Not Found");
        return Action::Respond(Reply { status: 404, body });
    }
    if str_ends_with(rel.as_str(), ".jhp") {
        Action::ReadTemplate(rel)
    } else {
        Action::ReadStatic(rel)
    }
}

/// The reply when reading a document failed: the index gets a 404, any other
/// document a 500.
pub fn read_failed(index: bool) -> (r: Reply)
    ensures
        index ==> r.status == 404 && r.body@ == index_missing_body(),
        !index ==> r.status == 500 && r.body@ == "Failed to read file"@,
{
    if index {
        Reply { status: 404, body: String::from_str("Cannot get '/': File Not Found") }
    } else {
        Reply { status: 500, body: String::from_str("Failed to read file") }
    }
}

/// The reply that carries a document sent as it is.
pub fn static_reply(content: String) -> (r: Reply)
    ensures
        r.status == 200,
        r.body@ == content@,
{
    Reply { status: 200, body: content }
}

/// The reply for a render: the body the executor sent back, or a 503 when the
/// executor dropped the request.
pub fn render_reply(body: Option<String>) -> (r: Reply)
    ensures
        body matches Some(b) ==> r.status == 200 && r.body@ == b@,
        body is None ==> r.status == 503 && r.body@ == "Executor unavailable"@,
{
    match body {
        Some(b) => Reply { status: 200, body: b },
        None => Reply { status: 503, body: String::from_str("Executor unavailable") },
    }
}

/// The executor that the `ticket`-th request goes to, round robin over `size` executors.
pub fn executor_index(ticket: usize, size: usize) -> (r: usize)
    ensures
        size > 0 ==> r == ticket % size && r < size,
        size == 0 ==> r == 0,
{
    if size == 0 {
        0
    } else {
        ticket % size
    }
}

} // verus!
