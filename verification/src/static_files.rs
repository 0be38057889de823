//! Serving of the embedded front end: which files a request path names,
//! when the single-page app's `index.html` stands in, how long a reply may
//! be cached, and the `Content-Type` of a file.
use vstd::prelude::*;
use vstd::string::StringExecFns;
use crate::text::{starts_with, str_contains_char, str_eq, strip_prefix};

verus! {

/// Essence (`type/subtype`) of the MIME type `mime_guess` gives for a path
/// (by its extension; `application/octet-stream` when unknown).
pub uninterp spec fn mime_essence_of(path: Seq<char>) -> Seq<char>;

/// `mime_guess::from_path(path).first_or_octet_stream().essence_str()`:
/// the MIME essence guessed from the path's extension, without disk access.
#[verifier::external_body]
fn guess_mime_essence(path: &str) -> (r: String)
    ensures
        r@ == mime_essence_of(path@),
{
    mime_guess::from_path(path).first_or_octet_stream().essence_str().to_string()
}

/// `Content-Type` sent for a MIME essence: text types get `charset=utf-8`;
/// unknown types are sent as `application/octet-stream`.
pub open spec fn content_type_table(essence: Seq<char>) -> Seq<char> {
    if essence == "text/html"@ {
        "text/html; charset=utf-8"@
    } else if essence == "text/css"@ {
        "text/css; charset=utf-8"@
    } else if essence == "application/javascript"@ {
        "application/javascript; charset=utf-8"@
    } else if essence == "text/javascript"@ {
        "text/javascript; charset=utf-8"@
    } else if essence == "application/json"@ {
        "application/json; charset=utf-8"@
    } else if essence == "image/svg+xml"@ {
        "image/svg+xml"@
    } else if essence == "image/png"@ {
        "image/png"@
    } else if essence == "image/jpeg"@ {
        "image/jpeg"@
    } else if essence == "image/x-icon"@ {
        "image/x-icon"@
    } else if essence == "application/manifest+json"@ {
        "application/manifest+json; charset=utf-8"@
    } else if essence == "text/plain"@ {
        "text/plain; charset=utf-8"@
    } else if essence == "application/wasm"@ {
        "application/wasm"@
    } else {
        "application/octet-stream"@
    }
}

/// Text types are sent as their essence followed by `; charset=utf-8`;
/// the other known types as their bare essence.  So no known type is sent
/// as `application/octet-stream`, and no essence is ever sent as another
/// type: the header is the essence itself, with or without the charset,
/// or `application/octet-stream`.
pub proof fn lemma_known_content_types()
    ensures
        forall|e: Seq<char>|
            #![trigger content_type_table(e)]
            content_type_table(e) == e + "; charset=utf-8"@ || content_type_table(e) == e
                || content_type_table(e) == "application/octet-stream"@,
        content_type_table("text/html"@) == "text/html"@ + "; charset=utf-8"@,
        content_type_table("text/css"@) == "text/css"@ + "; charset=utf-8"@,
        content_type_table("application/javascript"@) == "application/javascript"@
            + "; charset=utf-8"@,
        content_type_table("text/javascript"@) == "text/javascript"@ + "; charset=utf-8"@,
        content_type_table("application/json"@) == "application/json"@ + "; charset=utf-8"@,
        content_type_table("application/manifest+json"@) == "application/manifest+json"@
            + "; charset=utf-8"@,
        content_type_table("text/plain"@) == "text/plain"@ + "; charset=utf-8"@,
        content_type_table("image/svg+xml"@) == "image/svg+xml"@,
        content_type_table("image/png"@) == "image/png"@,
        content_type_table("image/jpeg"@) == "image/jpeg"@,
        content_type_table("image/x-icon"@) == "image/x-icon"@,
        content_type_table("application/wasm"@) == "application/wasm"@,
{
    reveal_strlit("; charset=utf-8");
    reveal_strlit("text/html");
    reveal_strlit("text/html; charset=utf-8");
    reveal_strlit("text/css");
    reveal_strlit("text/css; charset=utf-8");
    reveal_strlit("application/javascript");
    reveal_strlit("application/javascript; charset=utf-8");
    reveal_strlit("text/javascript");
    reveal_strlit("text/javascript; charset=utf-8");
    reveal_strlit("application/json");
    reveal_strlit("application/json; charset=utf-8");
    reveal_strlit("image/svg+xml");
    reveal_strlit("image/png");
    reveal_strlit("image/jpeg");
    reveal_strlit("image/x-icon");
    reveal_strlit("application/manifest+json");
    reveal_strlit("application/manifest+json; charset=utf-8");
    reveal_strlit("text/plain");
    reveal_strlit("text/plain; charset=utf-8");
    reveal_strlit("application/wasm");
    assert("text/html; charset=utf-8"@ =~= "text/html"@ + "; charset=utf-8"@);
    assert("text/css; charset=utf-8"@ =~= "text/css"@ + "; charset=utf-8"@);
    assert("application/javascript; charset=utf-8"@ =~= "application/javascript"@
        + "; charset=utf-8"@);
    assert("text/javascript; charset=utf-8"@ =~= "text/javascript"@ + "; charset=utf-8"@);
    assert("application/json; charset=utf-8"@ =~= "application/json"@ + "; charset=utf-8"@);
    assert("application/manifest+json; charset=utf-8"@ =~= "application/manifest+json"@
        + "; charset=utf-8"@);
    assert("text/plain; charset=utf-8"@ =~= "text/plain"@ + "; charset=utf-8"@);
    assert("image/png"@[0] != "text/html"@[0]);
    assert("text/plain"@[0] != "image/jpeg"@[0]);
    assert("application/wasm"@[12] != "application/json"@[12]);
}

/// The `Content-Type` for a MIME essence.
pub fn content_type_for_essence(essence: &str) -> (r: &'static str)
    ensures
        r@ == content_type_table(essence@),
{
    if str_eq(essence, "text/html") {
        "text/html; charset=utf-8"
    } else if str_eq(essence, "text/css") {
        "text/css; charset=utf-8"
    } else if str_eq(essence, "application/javascript") {
        "application/javascript; charset=utf-8"
    } else if str_eq(essence, "text/javascript") {
        "text/javascript; charset=utf-8"
    } else if str_eq(essence, "application/json") {
        "application/json; charset=utf-8"
    } else if str_eq(essence, "image/svg+xml") {
        "image/svg+xml"
    } else if str_eq(essence, "image/png") {
        "image/png"
    } else if str_eq(essence, "image/jpeg") {
        "image/jpeg"
    } else if str_eq(essence, "image/x-icon") {
        "image/x-icon"
    } else if str_eq(essence, "application/manifest+json") {
        "application/manifest+json; charset=utf-8"
    } else if str_eq(essence, "text/plain") {
        "text/plain; charset=utf-8"
    } else if str_eq(essence, "application/wasm") {
        "application/wasm"
    } else {
        "application/octet-stream"
    }
}

/// The `Content-Type` of the file at `path`, from its extension.
pub fn guess_content_type(path: &str) -> (r: &'static str)
    ensures
        r@ == content_type_table(mime_essence_of(path@)),
{
    let essence = guess_mime_essence(path);
    content_type_for_essence(essence.as_str())
}

/// `s` without its leading `/` characters.
pub open spec fn trim_leading_slashes(s: Seq<char>) -> Seq<char>
    decreases s.len(),
{
    if s.len() > 0 && s[0] == '/' {
        trim_leading_slashes(s.drop_first())
    } else {
        s
    }
}

/// Removes every leading `/`.
pub fn trim_slashes(path: &str) -> (r: &str)
    ensures
        r@ == trim_leading_slashes(path@),
{
    let mut rest: &str = path;
    loop
        invariant
            trim_leading_slashes(rest@) == trim_leading_slashes(path@),
        decreases rest@.len(),
    {
        proof {
            reveal_strlit("/");
        }
        match strip_prefix(rest, "/") {
            Some(r) => {
                assert("/"@.len() == 1 && "/"@[0] == '/');
                assert(rest@.subrange(0, 1)[0] == rest@[0]);
                assert(rest@.len() > 0 && rest@[0] == '/');
                assert(r@ =~= rest@.drop_first());
                rest = r;
            },
            None => {
                assert(!(rest@.len() > 0 && rest@[0] == '/')) by {
                    if rest@.len() > 0 && rest@[0] == '/' {
                        assert(rest@.subrange(0, 1) =~= "/"@);
                    }
                }
                return rest;
            },
        }
    }
}

/// Files that may answer a request for `path`, in the order they are
/// tried: `index.html` for the root, else the path itself and then the
/// `index.html` of the directory it names.
pub open spec fn spec_lookup_candidates(path: Seq<char>) -> Seq<Seq<char>> {
    let n = trim_leading_slashes(path);
    if n.len() == 0 {
        seq!["index.html"@]
    } else {
        seq![n, n + "/index.html"@]
    }
}

/// `k` slashes.
pub open spec fn slashes(k: nat) -> Seq<char> {
    Seq::new(k, |i: int| '/')
}

proof fn lemma_trim_slashes(k: nat, t: Seq<char>)
    requires
        t.len() == 0 || t[0] != '/',
    ensures
        trim_leading_slashes(slashes(k) + t) == t,
    decreases k,
{
    if k == 0 {
        assert(slashes(k) + t =~= t);
    } else {
        assert((slashes(k) + t).drop_first() =~= slashes((k - 1) as nat) + t);
        lemma_trim_slashes((k - 1) as nat, t);
    }
}

/// A request for `/…/t` (any number of leading slashes, `t` not starting
/// with one) tries the file `t` first, then `t/index.html`; a request for
/// slashes only tries `index.html`.
pub proof fn lemma_lookup_candidates(k: nat, t: Seq<char>)
    requires
        t.len() == 0 || t[0] != '/',
    ensures
        t.len() > 0 ==> spec_lookup_candidates(slashes(k) + t) == seq![t, t + "/index.html"@],
        t.len() == 0 ==> spec_lookup_candidates(slashes(k) + t) == seq!["index.html"@],
{
    lemma_trim_slashes(k, t);
}

/// The files to try for a request path, in order.
pub fn lookup_candidates(path: &str) -> (v: Vec<String>)
    ensures
        v@.map_values(|s: String| s@) == spec_lookup_candidates(path@),
{
    proof {
        reveal_strlit("");
    }
    let n = trim_slashes(path);
    let mut v: Vec<String> = Vec::new();
    if str_eq(n, "") {
        v.push(String::from_str("index.html"));
        assert(v@.map_values(|s: String| s@)[0] == "index.html"@);
    } else {
        assert(n@.len() != 0) by {
            if n@.len() == 0 {
                assert(n@ =~= ""@);
            }
        }
        v.push(String::from_str(n));
        v.push(String::from_str(n).concat("/index.html"));
        assert(v@.map_values(|s: String| s@)[0] == n@);
        assert(v@.map_values(|s: String| s@)[1] == n@ + "/index.html"@);
    }
    assert(v@.map_values(|s: String| s@) =~= spec_lookup_candidates(path@));
    v
}

/// How a `GET` outside `/api/` is served.
#[derive(Debug, Clone)]
pub struct StaticPlan {
    /// Files to try, in order.
    pub candidates: Vec<String>,
    /// When none exists, answer with `index.html` (the app's own routes).
    pub spa_fallback: bool,
    /// Send `Cache-Control: public, max-age=3600`.
    pub cacheable: bool,
}

/// Plans the static reply for `path`; `None` for paths under `/api/`.
/// Paths with a `.` name files: they are cacheable and have no fallback;
/// other paths fall back to `index.html`.
pub fn static_plan(path: &str) -> (r: Option<StaticPlan>)
    ensures
        (r is None) == starts_with(path@, "/api/"@),
        r matches Some(p) ==> {
            &&& p.candidates@.map_values(|s: String| s@) == spec_lookup_candidates(path@)
            &&& p.spa_fallback == !path@.contains('.')
            &&& p.cacheable == path@.contains('.')
        },
{
    if strip_prefix(path, "/api/").is_some() {
        return None;
    }
    let dotted = str_contains_char(path, '.');
    Some(StaticPlan { candidates: lookup_candidates(path), spa_fallback: !dotted, cacheable: dotted })
}

} // verus!
