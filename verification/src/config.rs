//! Configuration model and the JSONC comment stripper used before parsing it.
use vstd::prelude::*;
use crate::text::{chars_of, decimal, push_decimal, string_push};
use vstd::string::StringSliceAdditionalSpecFns;

verus! {

/// HTTP listening address.
#[derive(Debug, Clone)]
pub struct HttpConfig {
    pub host: String,
    pub port: u16,
}

/// Default per-device byte budget of the recent-frame cache (4 MiB).
pub fn default_max_bytes() -> (r: usize)
    ensures
        r == 4 * 1024 * 1024,
{
    4 * 1024 * 1024
}

/// Default size limit of a single video frame (256 KiB).
pub fn default_max_frame_bytes() -> (r: usize)
    ensures
        r == 256 * 1024,
{
    256 * 1024
}

/// Video cache settings.
#[derive(Debug, Clone)]
pub struct VideoConfig {
    /// How long frames are kept, in seconds (normally 1).
    pub cache_seconds: u32,
    /// Largest number of devices the registry accepts.
    pub max_devices: u32,
    /// Byte budget of each device's recent-frame cache.
    pub max_bytes: usize,
    /// Frames larger than this are dropped.
    pub max_frame_bytes: usize,
}

/// Authentication settings.
#[derive(Debug, Clone)]
pub struct AuthConfig {
    /// Device token (HTTP Bearer).
    pub token: String,
    /// Password of the web front end.
    pub frontend_password: String,
}

/// Whole configuration, loaded once at start-up.
#[derive(Debug, Clone)]
pub struct Config {
    pub http: HttpConfig,
    pub video: VideoConfig,
    pub auth: AuthConfig,
    pub log_level: String,
}

impl Config {
    /// The `host:port` socket address the HTTP server listens on.
    pub fn http_addr(&self) -> (addr: String)
        ensures
            addr@ == self.http.host@ + seq![':'] + decimal(self.http.port as nat),
    {
        let mut out = self.http.host.clone();
        string_push(&mut out, ':');
        push_decimal(&mut out, self.http.port as u64);
        out
    }
}

/// Lexer state while scanning JSONC text.
pub enum JsoncMode {
    /// Ordinary JSON text.
    Code,
    /// Inside a string literal.
    Str,
    /// Inside a string literal, right after a backslash.
    Escape,
    /// Inside a `//` comment.
    Line,
    /// Inside a `/* */` comment.
    Block,
}

/// The characters of `s` that survive comment removal when scanning starts in `mode`.
/// Comments are recognised only outside string literals; a `//` comment ends
/// before its newline, an unterminated `/*` comment swallows the rest.
pub open spec fn jsonc_kept(s: Seq<char>, mode: JsoncMode) -> Seq<char>
    decreases s.len(),
{
    if s.len() == 0 {
        seq![]
    } else {
        match mode {
            JsoncMode::Code => {
                if s[0] == '"' {
                    seq![s[0]] + jsonc_kept(s.drop_first(), JsoncMode::Str)
                } else if s[0] == '/' && s.len() >= 2 && s[1] == '/' {
                    jsonc_kept(s.subrange(2, s.len() as int), JsoncMode::Line)
                } else if s[0] == '/' && s.len() >= 2 && s[1] == '*' {
                    jsonc_kept(s.subrange(2, s.len() as int), JsoncMode::Block)
                } else {
                    seq![s[0]] + jsonc_kept(s.drop_first(), JsoncMode::Code)
                }
            },
            JsoncMode::Str => {
                let next = if s[0] == '\\' {
                    JsoncMode::Escape
                } else if s[0] == '"' {
                    JsoncMode::Code
                } else {
                    JsoncMode::Str
                };
                seq![s[0]] + jsonc_kept(s.drop_first(), next)
            },
            JsoncMode::Escape => seq![s[0]] + jsonc_kept(s.drop_first(), JsoncMode::Str),
            JsoncMode::Line => {
                if s[0] == '\n' {
                    seq![s[0]] + jsonc_kept(s.drop_first(), JsoncMode::Code)
                } else {
                    jsonc_kept(s.drop_first(), JsoncMode::Line)
                }
            },
            JsoncMode::Block => {
                if s.len() < 2 {
                    seq![]
                } else if s[0] == '*' && s[1] == '/' {
                    jsonc_kept(s.subrange(2, s.len() as int), JsoncMode::Code)
                } else {
                    jsonc_kept(s.drop_first(), JsoncMode::Block)
                }
            },
        }
    }
}

proof fn lemma_str_run_kept(t: Seq<char>, tail: Seq<char>)
    requires
        forall|i: int| 0 <= i < t.len() ==> t[i] != '"' && t[i] != '\\',
    ensures
        jsonc_kept(t + seq!['"'] + tail, JsoncMode::Str) == t + seq!['"'] + jsonc_kept(
            tail,
            JsoncMode::Code,
        ),
    decreases t.len(),
{
    let s = t + seq!['"'] + tail;
    if t.len() == 0 {
        assert(s =~= seq!['"'] + tail);
        assert(s.drop_first() =~= tail);
        assert(t + seq!['"'] + jsonc_kept(tail, JsoncMode::Code) =~= seq!['"'] + jsonc_kept(
            tail,
            JsoncMode::Code,
        ));
    } else {
        assert(s[0] == t[0]);
        assert(s.drop_first() =~= t.drop_first() + seq!['"'] + tail);
        lemma_str_run_kept(t.drop_first(), tail);
        assert(seq![t[0]] + (t.drop_first() + seq!['"'] + jsonc_kept(tail, JsoncMode::Code))
            =~= t + seq!['"'] + jsonc_kept(tail, JsoncMode::Code));
    }
}

/// A string literal is kept as it is, comment markers inside it included
/// (for a literal without quotes or backslashes inside).
pub proof fn lemma_string_literal_kept(t: Seq<char>, rest: Seq<char>)
    requires
        forall|i: int| 0 <= i < t.len() ==> t[i] != '"' && t[i] != '\\',
    ensures
        jsonc_kept(seq!['"'] + t + seq!['"'] + rest, JsoncMode::Code) == seq!['"'] + t
            + seq!['"'] + jsonc_kept(rest, JsoncMode::Code),
{
    let s = seq!['"'] + t + seq!['"'] + rest;
    assert(s[0] == '"');
    assert(s.drop_first() =~= t + seq!['"'] + rest);
    lemma_str_run_kept(t, rest);
    assert(seq!['"'] + (t + seq!['"'] + jsonc_kept(rest, JsoncMode::Code)) =~= seq!['"']
        + t + seq!['"'] + jsonc_kept(rest, JsoncMode::Code));
}

proof fn lemma_line_run_dropped(c: Seq<char>, tail: Seq<char>)
    requires
        forall|i: int| 0 <= i < c.len() ==> c[i] != '\n',
    ensures
        jsonc_kept(c + seq!['\n'] + tail, JsoncMode::Line) == seq!['\n'] + jsonc_kept(
            tail,
            JsoncMode::Code,
        ),
    decreases c.len(),
{
    let s = c + seq!['\n'] + tail;
    if c.len() == 0 {
        assert(s =~= seq!['\n'] + tail);
        assert(s.drop_first() =~= tail);
    } else {
        assert(s[0] == c[0]);
        assert(s.drop_first() =~= c.drop_first() + seq!['\n'] + tail);
        lemma_line_run_dropped(c.drop_first(), tail);
    }
}

/// A `//` comment is removed up to, not including, its newline.
pub proof fn lemma_line_comment_removed(c: Seq<char>, rest: Seq<char>)
    requires
        forall|i: int| 0 <= i < c.len() ==> c[i] != '\n',
    ensures
        jsonc_kept(seq!['/', '/'] + c + seq!['\n'] + rest, JsoncMode::Code) == seq!['\n']
            + jsonc_kept(rest, JsoncMode::Code),
{
    let s = seq!['/', '/'] + c + seq!['\n'] + rest;
    assert(s[0] == '/' && s[1] == '/' && s.len() >= 2);
    assert(s.subrange(2, s.len() as int) =~= c + seq!['\n'] + rest);
    lemma_line_run_dropped(c, rest);
}

/// `*/` starts at byte `i` of `c`.
pub open spec fn closes_at(c: Seq<char>, i: int) -> bool {
    c[i] == '*' && c[i + 1] == '/'
}

proof fn lemma_block_run_dropped(c: Seq<char>, tail: Seq<char>)
    requires
        forall|i: int| 0 <= i < c.len() - 1 ==> !#[trigger] closes_at(c, i),
    ensures
        jsonc_kept(c + seq!['*', '/'] + tail, JsoncMode::Block) == jsonc_kept(
            tail,
            JsoncMode::Code,
        ),
    decreases c.len(),
{
    let s = c + seq!['*', '/'] + tail;
    if c.len() == 0 {
        assert(s =~= seq!['*', '/'] + tail);
        assert(s.subrange(2, s.len() as int) =~= tail);
    } else {
        assert(s[0] == c[0]);
        assert(s.len() >= 2);
        if c.len() == 1 {
            assert(s[1] == '*');
        } else {
            assert(s[1] == c[1]);
            assert(!closes_at(c, 0));
        }
        assert(s.drop_first() =~= c.drop_first() + seq!['*', '/'] + tail);
        let d = c.drop_first();
        assert forall|i: int| 0 <= i < d.len() - 1 implies !#[trigger] closes_at(d, i) by {
            assert(!closes_at(c, i + 1));
        }
        lemma_block_run_dropped(d, tail);
    }
}

/// A `/* */` comment is removed whole (for a comment text that does not
/// itself close the comment).
pub proof fn lemma_block_comment_removed(c: Seq<char>, rest: Seq<char>)
    requires
        forall|i: int| 0 <= i < c.len() - 1 ==> !#[trigger] closes_at(c, i),
    ensures
        jsonc_kept(seq!['/', '*'] + c + seq!['*', '/'] + rest, JsoncMode::Code)
            == jsonc_kept(rest, JsoncMode::Code),
{
    let s = seq!['/', '*'] + c + seq!['*', '/'] + rest;
    assert(s[0] == '/' && s[1] == '*' && s.len() >= 2);
    assert(s.subrange(2, s.len() as int) =~= c + seq!['*', '/'] + rest);
    lemma_block_run_dropped(c, rest);
}

/// What `strip_jsonc_comments` returns for input text `s`.
pub open spec fn spec_strip_jsonc(s: Seq<char>) -> Seq<char> {
    jsonc_kept(s, JsoncMode::Code)
}

/// Mode in which scanning the kept text of mode `m` goes on.
spec fn resume_mode(m: JsoncMode) -> JsoncMode {
    match m {
        JsoncMode::Line => JsoncMode::Code,
        JsoncMode::Block => JsoncMode::Code,
        _ => m,
    }
}

proof fn lemma_kept_starts_with(s: Seq<char>)
    requires
        s.len() > 0,
        s[0] != '/',
    ensures
        jsonc_kept(s, JsoncMode::Code).len() > 0,
        jsonc_kept(s, JsoncMode::Code)[0] == s[0],
{
}

proof fn lemma_kept_stable(s: Seq<char>, m: JsoncMode)
    ensures
        jsonc_kept(jsonc_kept(s, m), resume_mode(m)) == jsonc_kept(s, m),
    decreases s.len(),
{
    if s.len() == 0 {
        return;
    }
    let out = jsonc_kept(s, m);
    let t = s.drop_first();
    match m {
        JsoncMode::Code => {
            if s[0] == '"' {
                lemma_kept_stable(t, JsoncMode::Str);
                assert(out.drop_first() =~= jsonc_kept(t, JsoncMode::Str));
            } else if s[0] == '/' && s.len() >= 2 && s[1] == '/' {
                lemma_kept_stable(s.subrange(2, s.len() as int), JsoncMode::Line);
            } else if s[0] == '/' && s.len() >= 2 && s[1] == '*' {
                lemma_kept_stable(s.subrange(2, s.len() as int), JsoncMode::Block);
            } else {
                lemma_kept_stable(t, JsoncMode::Code);
                assert(out.drop_first() =~= jsonc_kept(t, JsoncMode::Code));
                if s[0] == '/' && s.len() >= 2 {
                    lemma_kept_starts_with(t);
                    assert(out[1] == s[1]);
                }
                if s.len() == 1 {
                    assert(t.len() == 0);
                    assert(out =~= seq![s[0]]);
                }
            }
        },
        JsoncMode::Str => {
            let next = if s[0] == '\\' {
                JsoncMode::Escape
            } else if s[0] == '"' {
                JsoncMode::Code
            } else {
                JsoncMode::Str
            };
            lemma_kept_stable(t, next);
            assert(out.drop_first() =~= jsonc_kept(t, next));
        },
        JsoncMode::Escape => {
            lemma_kept_stable(t, JsoncMode::Str);
            assert(out.drop_first() =~= jsonc_kept(t, JsoncMode::Str));
        },
        JsoncMode::Line => {
            if s[0] == '\n' {
                lemma_kept_stable(t, JsoncMode::Code);
                assert(out.drop_first() =~= jsonc_kept(t, JsoncMode::Code));
            } else {
                lemma_kept_stable(t, JsoncMode::Line);
            }
        },
        JsoncMode::Block => {
            if s.len() < 2 {
            } else if s[0] == '*' && s[1] == '/' {
                lemma_kept_stable(s.subrange(2, s.len() as int), JsoncMode::Code);
            } else {
                lemma_kept_stable(t, JsoncMode::Block);
            }
        },
    }
}

/// Stripping comments twice gives what stripping once gives: removing a
/// comment never makes a new comment or moves a string boundary.
pub proof fn lemma_strip_idempotent(s: Seq<char>)
    ensures
        spec_strip_jsonc(spec_strip_jsonc(s)) == spec_strip_jsonc(s),
{
    lemma_kept_stable(s, JsoncMode::Code);
}

pub open spec fn mode_of(in_string: bool, in_escape: bool) -> JsoncMode {
    if !in_string {
        JsoncMode::Code
    } else if in_escape {
        JsoncMode::Escape
    } else {
        JsoncMode::Str
    }
}

/// Removes `//` line comments and `/* */` block comments from JSONC text,
/// leaving string literals (including escaped quotes) untouched.
pub fn strip_jsonc_comments(input: &str) -> (out: String)
    ensures
        out@ == spec_strip_jsonc(input@),
{
    let chars = chars_of(input);
    let n = chars.len();
    let ghost s = chars@;
    let mut out = String::new();
    let mut i: usize = 0;
    let mut in_string = false;
    let mut in_escape = false;
    assert(s.subrange(0, n as int) =~= s);
    assert(out@ + jsonc_kept(s, JsoncMode::Code) =~= jsonc_kept(s, JsoncMode::Code));
    while i < n
        invariant
            n == s.len(),
            s == chars@,
            i <= n,
            in_escape ==> in_string,
            jsonc_kept(s, JsoncMode::Code) == out@ + jsonc_kept(s.subrange(i as int, n as int), mode_of(in_string, in_escape)),
        decreases n - i,
    {
        let b = chars[i];
        let ghost rest = s.subrange(i as int, n as int);
        assert(rest.drop_first() == s.subrange(i + 1, n as int));
        if in_string {
            string_push(&mut out, b);
            if in_escape {
                in_escape = false;
            } else if b == '\\' {
                in_escape = true;
            } else if b == '"' {
                in_string = false;
            }
            i += 1;
            continue;
        }
        if b == '"' {
            in_string = true;
            string_push(&mut out, b);
            i += 1;
            continue;
        }
        if b == '/' && i + 1 < n {
            let next = chars[i + 1];
            let ghost i0 = i;
            assert(rest[0] == b && rest[1] == next);
            assert(rest.subrange(2, rest.len() as int) == s.subrange(i + 2, n as int));
            if next == '/' {
                i += 2;
                while i < n && chars[i] != '\n'
                    invariant
                        n == s.len(),
                        s == chars@,
                        i <= n,
                        !in_string,
                        !in_escape,
                        i > i0,
                        jsonc_kept(s, JsoncMode::Code) == out@ + jsonc_kept(s.subrange(i as int, n as int), JsoncMode::Line),
                    decreases n - i,
                {
                    assert(s.subrange(i as int, n as int).drop_first() == s.subrange(i + 1, n as int));
                    i += 1;
                }
                if i < n {
                    assert(s.subrange(i as int, n as int).drop_first() == s.subrange(i + 1, n as int));
                }
                continue;
            }
            if next == '*' {
                i += 2;
                while n - i > 1 && !(chars[i] == '*' && chars[i + 1] == '/')
                    invariant
                        n == s.len(),
                        s == chars@,
                        i <= n,
                        !in_string,
                        !in_escape,
                        i > i0,
                        jsonc_kept(s, JsoncMode::Code) == out@ + jsonc_kept(s.subrange(i as int, n as int), JsoncMode::Block),
                    decreases n - i,
                {
                    assert(s.subrange(i as int, n as int).drop_first() == s.subrange(i + 1, n as int));
                    i += 1;
                }
                if n - i > 1 {
                    assert(s.subrange(i as int, n as int).subrange(2, (n - i) as int) == s.subrange(i + 2, n as int));
                    i += 2;
                } else {
                    i = n;
                }
                continue;
            }
        }
        string_push(&mut out, b);
        i += 1;
    }
    out
}

} // verus!
