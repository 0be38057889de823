//! Request handling: routing of method and path to an endpoint, and the
//! decisions each endpoint makes.  Bodies are parsed and replies encoded by
//! the HTTP front end; these functions take and return plain values.
use vstd::prelude::*;
use vstd::string::StringSliceAdditionalSpecFns;
use crate::text::{
    after_char, after_prefix, before_char, index_of_char, lemma_index_of_char_split, split_at_char,
    starts_with, str_eq, strip_prefix,
};
use std::io::Write;
use vstd::slice::slice_to_vec;

pub mod auth;
pub mod control;
pub mod device_api;
pub mod devices;
pub mod frame;
pub mod photo;
pub mod provisioning;
pub mod pwm_cache;
pub mod stream;
pub mod telemetry;

verus! {

/// Request method, as far as routing cares.
#[derive(Debug, Clone, Copy, PartialEq, Eq, Structural)]
pub enum HttpMethod {
    Get,
    Post,
    Other,
}

/// Endpoint a request goes to.
#[derive(Debug, Clone)]
pub enum Route {
    /// `GET /api/health`.
    Health,
    /// `POST /api/auth/login`.
    Login,
    /// `GET /api/config`.
    Config,
    /// `POST /api/device/{id}/register`.
    DeviceRegister(String),
    /// `GET /api/device/{id}/poll`.
    DevicePoll(String),
    /// `POST /api/device/{id}/event`.
    DeviceEvent(String),
    /// `POST /api/device/{id}/frame`.
    DeviceFrame(String),
    /// Any other request under `/api/device/` (answered 400).
    UnknownDeviceAction,
    /// `GET /api/devices`.
    Devices,
    /// `POST /api/control/{id}`.
    Control(String),
    /// `POST /api/photo/{id}`.
    Photo(String),
    /// `GET /api/stream/{id}`.
    Stream(String),
    /// `GET /api/telemetry/{id}`.
    Telemetry(String),
    /// `GET /api/pwm_cache/{id}`.
    PwmCacheGet(String),
    /// `POST /api/pwm_cache/{id}`.
    PwmCachePost(String),
    /// `GET` outside `/api/`: the embedded front end.
    Static,
    /// Nothing matches (answered 404).
    NotFound,
}

/// `Route` with its texts taken as character sequences.
pub enum RouteView {
    Health,
    Login,
    Config,
    DeviceRegister(Seq<char>),
    DevicePoll(Seq<char>),
    DeviceEvent(Seq<char>),
    DeviceFrame(Seq<char>),
    UnknownDeviceAction,
    Devices,
    Control(Seq<char>),
    Photo(Seq<char>),
    Stream(Seq<char>),
    Telemetry(Seq<char>),
    PwmCacheGet(Seq<char>),
    PwmCachePost(Seq<char>),
    Static,
    NotFound,
}

impl Route {
    pub open spec fn view(&self) -> RouteView {
        match self {
            Route::Health => RouteView::Health,
            Route::Login => RouteView::Login,
            Route::Config => RouteView::Config,
            Route::DeviceRegister(s) => RouteView::DeviceRegister(s@),
            Route::DevicePoll(s) => RouteView::DevicePoll(s@),
            Route::DeviceEvent(s) => RouteView::DeviceEvent(s@),
            Route::DeviceFrame(s) => RouteView::DeviceFrame(s@),
            Route::UnknownDeviceAction => RouteView::UnknownDeviceAction,
            Route::Devices => RouteView::Devices,
            Route::Control(s) => RouteView::Control(s@),
            Route::Photo(s) => RouteView::Photo(s@),
            Route::Stream(s) => RouteView::Stream(s@),
            Route::Telemetry(s) => RouteView::Telemetry(s@),
            Route::PwmCacheGet(s) => RouteView::PwmCacheGet(s@),
            Route::PwmCachePost(s) => RouteView::PwmCachePost(s@),
            Route::Static => RouteView::Static,
            Route::NotFound => RouteView::NotFound,
        }
    }
}

/// Endpoint under `/api/device/` for the rest of the path `rest` (`{id}/{action}`).
pub open spec fn spec_device_route(m: HttpMethod, rest: Seq<char>) -> RouteView {
    let id = before_char(rest, '/');
    if !rest.contains('/') {
        RouteView::UnknownDeviceAction
    } else {
        let action = after_char(rest, '/');
        if action == "register"@ && m == HttpMethod::Post {
            RouteView::DeviceRegister(id)
        } else if action == "poll"@ && m == HttpMethod::Get {
            RouteView::DevicePoll(id)
        } else if action == "event"@ && m == HttpMethod::Post {
            RouteView::DeviceEvent(id)
        } else if action == "frame"@ && m == HttpMethod::Post {
            RouteView::DeviceFrame(id)
        } else {
            RouteView::UnknownDeviceAction
        }
    }
}

/// Endpoint for method `m` and path `p`, checked in this order.
pub open spec fn spec_route(m: HttpMethod, p: Seq<char>) -> RouteView {
    if p == "/api/health"@ && m == HttpMethod::Get {
        RouteView::Health
    } else if p == "/api/auth/login"@ && m == HttpMethod::Post {
        RouteView::Login
    } else if p == "/api/config"@ && m == HttpMethod::Get {
        RouteView::Config
    } else if starts_with(p, "/api/device/"@) {
        spec_device_route(m, after_prefix(p, "/api/device/"@))
    } else if p == "/api/devices"@ && m == HttpMethod::Get {
        RouteView::Devices
    } else if starts_with(p, "/api/control/"@) && m == HttpMethod::Post {
        RouteView::Control(after_prefix(p, "/api/control/"@))
    } else if starts_with(p, "/api/photo/"@) && m == HttpMethod::Post {
        RouteView::Photo(after_prefix(p, "/api/photo/"@))
    } else if starts_with(p, "/api/stream/"@) && m == HttpMethod::Get {
        RouteView::Stream(after_prefix(p, "/api/stream/"@))
    } else if starts_with(p, "/api/telemetry/"@) && m == HttpMethod::Get {
        RouteView::Telemetry(after_prefix(p, "/api/telemetry/"@))
    } else if starts_with(p, "/api/pwm_cache/"@) && m == HttpMethod::Get {
        RouteView::PwmCacheGet(after_prefix(p, "/api/pwm_cache/"@))
    } else if starts_with(p, "/api/pwm_cache/"@) && m == HttpMethod::Post {
        RouteView::PwmCachePost(after_prefix(p, "/api/pwm_cache/"@))
    } else if m == HttpMethod::Get && !starts_with(p, "/api/"@) {
        RouteView::Static
    } else {
        RouteView::NotFound
    }
}

proof fn lemma_device_path(id: Seq<char>, action: Seq<char>)
    requires
        !id.contains('/'),
    ensures
        ({
            let p = "/api/device/"@ + id + seq!['/'] + action;
            &&& starts_with(p, "/api/device/"@)
            &&& after_prefix(p, "/api/device/"@) == id + seq!['/'] + action
            &&& (id + seq!['/'] + action).contains('/')
            &&& before_char(id + seq!['/'] + action, '/') == id
            &&& after_char(id + seq!['/'] + action, '/') == action
            &&& p.len() == 13 + id.len() + action.len()
        }),
{
    reveal_strlit("/api/device/");
    let p = "/api/device/"@ + id + seq!['/'] + action;
    let rest = id + seq!['/'] + action;
    assert(p.subrange(0, 12) =~= "/api/device/"@);
    assert(after_prefix(p, "/api/device/"@) =~= rest);
    assert(rest[id.len() as int] == '/');
    lemma_index_of_char_split(id, action, '/');
    assert(before_char(rest, '/') =~= id);
    assert(after_char(rest, '/') =~= action);
}

/// A device request `/api/device/{id}/{action}` goes to the action's
/// endpoint for device `id`, the text between the prefix and the next `/`,
/// whatever the action.
pub proof fn lemma_device_routes_carry_id(id: Seq<char>)
    requires
        !id.contains('/'),
    ensures
        spec_route(HttpMethod::Post, "/api/device/"@ + id + "/register"@) == RouteView::DeviceRegister(id),
        spec_route(HttpMethod::Get, "/api/device/"@ + id + "/poll"@) == RouteView::DevicePoll(id),
        spec_route(HttpMethod::Post, "/api/device/"@ + id + "/event"@) == RouteView::DeviceEvent(id),
        spec_route(HttpMethod::Post, "/api/device/"@ + id + "/frame"@) == RouteView::DeviceFrame(id),
{
    reveal_strlit("/api/health");
    reveal_strlit("/api/auth/login");
    reveal_strlit("/api/config");
    reveal_strlit("/register");
    reveal_strlit("register");
    reveal_strlit("/poll");
    reveal_strlit("poll");
    reveal_strlit("/event");
    reveal_strlit("event");
    reveal_strlit("/frame");
    reveal_strlit("frame");
    assert("/register"@ =~= seq!['/'] + "register"@);
    assert("/poll"@ =~= seq!['/'] + "poll"@);
    assert("/event"@ =~= seq!['/'] + "event"@);
    assert("/frame"@ =~= seq!['/'] + "frame"@);
    assert("/api/device/"@ + id + "/register"@ =~= "/api/device/"@ + id + seq!['/'] + "register"@);
    assert("/api/device/"@ + id + "/poll"@ =~= "/api/device/"@ + id + seq!['/'] + "poll"@);
    assert("/api/device/"@ + id + "/event"@ =~= "/api/device/"@ + id + seq!['/'] + "event"@);
    assert("/api/device/"@ + id + "/frame"@ =~= "/api/device/"@ + id + seq!['/'] + "frame"@);
    lemma_device_path(id, "register"@);
    lemma_device_path(id, "poll"@);
    lemma_device_path(id, "event"@);
    lemma_device_path(id, "frame"@);
    assert("frame"@[0] != "event"@[0]);
}

proof fn lemma_prefixed(prefix: Seq<char>, id: Seq<char>)
    ensures
        starts_with(prefix + id, prefix),
        after_prefix(prefix + id, prefix) == id,
        forall|j: int| 0 <= j < prefix.len() ==> (prefix + id)[j] == prefix[j],
{
    assert((prefix + id).subrange(0, prefix.len() as int) =~= prefix);
    assert(after_prefix(prefix + id, prefix) =~= id);
}

/// A request to `/api/{endpoint}/{id}` carries exactly the text after the
/// endpoint's prefix as the device id, never the whole path: control and
/// photo (POST), stream and telemetry (GET), and the PWM cache (GET and POST).
pub proof fn lemma_endpoint_routes_carry_id(id: Seq<char>)
    ensures
        spec_route(HttpMethod::Post, "/api/control/"@ + id) == RouteView::Control(id),
        spec_route(HttpMethod::Post, "/api/photo/"@ + id) == RouteView::Photo(id),
        spec_route(HttpMethod::Get, "/api/stream/"@ + id) == RouteView::Stream(id),
        spec_route(HttpMethod::Get, "/api/telemetry/"@ + id) == RouteView::Telemetry(id),
        spec_route(HttpMethod::Get, "/api/pwm_cache/"@ + id) == RouteView::PwmCacheGet(id),
        spec_route(HttpMethod::Post, "/api/pwm_cache/"@ + id) == RouteView::PwmCachePost(id),
{
    reveal_strlit("/api/health");
    reveal_strlit("/api/auth/login");
    reveal_strlit("/api/config");
    reveal_strlit("/api/device/");
    reveal_strlit("/api/devices");
    reveal_strlit("/api/control/");
    reveal_strlit("/api/photo/");
    reveal_strlit("/api/stream/");
    reveal_strlit("/api/telemetry/");
    reveal_strlit("/api/pwm_cache/");
    let c = "/api/control/"@ + id;
    let ph = "/api/photo/"@ + id;
    let st = "/api/stream/"@ + id;
    let te = "/api/telemetry/"@ + id;
    let pw = "/api/pwm_cache/"@ + id;
    lemma_prefixed("/api/control/"@, id);
    lemma_prefixed("/api/photo/"@, id);
    lemma_prefixed("/api/stream/"@, id);
    lemma_prefixed("/api/telemetry/"@, id);
    lemma_prefixed("/api/pwm_cache/"@, id);
    assert(c[5] == 'c' && ph[5] == 'p' && ph[6] == 'h' && st[5] == 's' && te[5] == 't');
    assert(pw[5] == 'p' && pw[6] == 'w');
    assert(c != "/api/auth/login"@ && ph != "/api/auth/login"@ && pw != "/api/auth/login"@) by {
        assert("/api/auth/login"@[5] == 'a');
    }
    assert(!starts_with(c, "/api/device/"@) && !starts_with(ph, "/api/device/"@) && !starts_with(
        st,
        "/api/device/"@,
    ) && !starts_with(te, "/api/device/"@) && !starts_with(pw, "/api/device/"@)) by {
        assert("/api/device/"@[5] == 'd');
        assert(c.subrange(0, 12)[5] == c[5]);
        assert(ph.len() < 12 || ph.subrange(0, 12)[5] == ph[5]);
        assert(st.subrange(0, 12)[5] == st[5]);
        assert(te.subrange(0, 12)[5] == te[5]);
        assert(pw.subrange(0, 12)[5] == pw[5]);
    }
    assert(st != "/api/health"@ && te != "/api/health"@ && pw != "/api/health"@) by {
        assert("/api/health"@[5] == 'h');
    }
    assert(st != "/api/config"@ && te != "/api/config"@ && pw != "/api/config"@) by {
        assert("/api/config"@[5] == 'c');
    }
    assert(st != "/api/devices"@ && te != "/api/devices"@ && pw != "/api/devices"@) by {
        assert("/api/devices"@[5] == 'd');
    }
    assert(!starts_with(ph, "/api/control/"@) && !starts_with(pw, "/api/control/"@)) by {
        assert(ph.len() < 13 || ph.subrange(0, 13)[5] == ph[5]);
        assert(pw.subrange(0, 13)[5] == pw[5]);
    }
    assert(!starts_with(pw, "/api/photo/"@)) by {
        assert(pw.subrange(0, 11)[6] == pw[6]);
    }
    assert(!starts_with(te, "/api/stream/"@) && !starts_with(pw, "/api/stream/"@)) by {
        assert(te.subrange(0, 12)[5] == te[5]);
        assert(pw.subrange(0, 12)[5] == pw[5]);
    }
    assert(!starts_with(pw, "/api/telemetry/"@)) by {
        assert(pw.len() < 15 || pw.subrange(0, 15)[5] == pw[5]);
    }
}

fn is_get(m: HttpMethod) -> (r: bool)
    ensures
        r == (m == HttpMethod::Get),
{
    match m {
        HttpMethod::Get => true,
        _ => false,
    }
}

fn is_post(m: HttpMethod) -> (r: bool)
    ensures
        r == (m == HttpMethod::Post),
{
    match m {
        HttpMethod::Post => true,
        _ => false,
    }
}

fn device_route(m: HttpMethod, rest: &str) -> (r: Route)
    ensures
        r.view() == spec_device_route(m, rest@),
{
    let (id, action) = split_at_char(rest, '/');
    match action {
        None => Route::UnknownDeviceAction,
        Some(a) => {
            if str_eq(a, "register") && is_post(m) {
                Route::DeviceRegister(id.to_owned())
            } else if str_eq(a, "poll") && is_get(m) {
                Route::DevicePoll(id.to_owned())
            } else if str_eq(a, "event") && is_post(m) {
                Route::DeviceEvent(id.to_owned())
            } else if str_eq(a, "frame") && is_post(m) {
                Route::DeviceFrame(id.to_owned())
            } else {
                Route::UnknownDeviceAction
            }
        },
    }
}

/// Routes a request by method and path.
pub fn route(method: HttpMethod, path: &str) -> (r: Route)
    ensures
        r.view() == spec_route(method, path@),
{
    if str_eq(path, "/api/health") && is_get(method) {
        return Route::Health;
    }
    if str_eq(path, "/api/auth/login") && is_post(method) {
        return Route::Login;
    }
    if str_eq(path, "/api/config") && is_get(method) {
        return Route::Config;
    }
    match strip_prefix(path, "/api/device/") {
        Some(rest) => {
            return device_route(method, rest);
        },
        None => {},
    }
    if str_eq(path, "/api/devices") && is_get(method) {
        return Route::Devices;
    }
    match strip_prefix(path, "/api/control/") {
        Some(rest) => {
            if is_post(method) {
                return Route::Control(rest.to_owned());
            }
        },
        None => {},
    }
    match strip_prefix(path, "/api/photo/") {
        Some(rest) => {
            if is_post(method) {
                return Route::Photo(rest.to_owned());
            }
        },
        None => {},
    }
    match strip_prefix(path, "/api/stream/") {
        Some(rest) => {
            if is_get(method) {
                return Route::Stream(rest.to_owned());
            }
        },
        None => {},
    }
    match strip_prefix(path, "/api/telemetry/") {
        Some(rest) => {
            if is_get(method) {
                return Route::Telemetry(rest.to_owned());
            }
        },
        None => {},
    }
    match strip_prefix(path, "/api/pwm_cache/") {
        Some(rest) => {
            if is_get(method) {
                return Route::PwmCacheGet(rest.to_owned());
            }
            if is_post(method) {
                return Route::PwmCachePost(rest.to_owned());
            }
        },
        None => {},
    }
    if is_get(method) && strip_prefix(path, "/api/").is_none() {
        Route::Static
    } else {
        Route::NotFound
    }
}

/// Reply of `GET /api/health`: `{status, version}`.
#[derive(Debug, Clone, Copy)]
pub struct HealthResponse {
    pub status: &'static str,
    pub version: &'static str,
}

/// The health reply: status `ok` and the service version `0.3.1`.
pub fn health() -> (r: HealthResponse)
    ensures
        r.status@ == "ok"@,
        r.version@ == "0.3.1"@,
{
    HealthResponse { status: "ok", version: "0.3.1" }
}

/// ASCII lower-casing of one byte.
pub open spec fn ascii_lower(b: u8) -> u8 {
    if 0x41 <= b && b <= 0x5a {
        (b + 32) as u8
    } else {
        b
    }
}

/// `gzip`, in any letter case, starts at byte `i` of `s`.
pub open spec fn gzip_at(s: Seq<u8>, i: int) -> bool {
    &&& ascii_lower(s[i]) == 0x67u8
    &&& ascii_lower(s[i + 1]) == 0x7au8
    &&& ascii_lower(s[i + 2]) == 0x69u8
    &&& ascii_lower(s[i + 3]) == 0x70u8
}

/// `s` contains `gzip`, ignoring ASCII case.
pub open spec fn mentions_gzip(s: Seq<u8>) -> bool {
    exists|i: int| 0 <= i && i + 4 <= s.len() && #[trigger] gzip_at(s, i)
}

fn lower(b: u8) -> (r: u8)
    ensures
        r == ascii_lower(b),
{
    if 0x41 <= b && b <= 0x5a {
        b + 32
    } else {
        b
    }
}

/// Whether an `Accept-Encoding` header value admits gzip.
pub fn accepts_gzip(value: Option<&str>) -> (r: bool)
    ensures
        r == (value is Some && mentions_gzip(value.unwrap().spec_bytes())),
{
    match value {
        None => false,
        Some(v) => {
            let s = v.as_bytes();
            let n = s.len();
            let mut i: usize = 0;
            while i < n && n - i >= 4
                invariant
                    n == s@.len(),
                    s@ == v.spec_bytes(),
                    value == Some(v),
                    i <= n,
                    forall|j: int| 0 <= j < i && j + 4 <= n ==> !#[trigger] gzip_at(s@, j),
                decreases n - i,
            {
                if lower(s[i]) == 0x67 && lower(s[i + 1]) == 0x7a && lower(s[i + 2]) == 0x69 && lower(
                    s[i + 3],
                ) == 0x70 {
                    assert(gzip_at(v.spec_bytes(), i as int) && i + 4 <= v.spec_bytes().len());
                    assert(mentions_gzip(v.spec_bytes()));
                    return true;
                }
                i += 1;
            }
            false
        },
    }
}

/// Largest request body accepted (1 MiB).
pub const MAX_BODY_BYTES: usize = 1024 * 1024;

/// Appends a chunk of a request body; false once the body exceeds `MAX_BODY_BYTES`.
pub fn append_body_chunk(buf: &mut Vec<u8>, chunk: &[u8]) -> (ok: bool)
    requires
        old(buf)@.len() + chunk@.len() <= usize::MAX,
    ensures
        final(buf)@ == old(buf)@ + chunk@,
        ok == (final(buf)@.len() <= MAX_BODY_BYTES),
{
    buf.extend_from_slice(chunk);
    buf.len() <= MAX_BODY_BYTES
}

/// Bodies of at least this many bytes are worth compressing.
pub const GZIP_MIN_BYTES: usize = 256;

/// Whether a reply body of `len` bytes is sent gzip-compressed.
pub fn gzip_worthwhile(accept_gzip: bool, len: usize) -> (r: bool)
    ensures
        r == (accept_gzip && len >= GZIP_MIN_BYTES),
{
    accept_gzip && len >= GZIP_MIN_BYTES
}

/// Gzip stream (default compression level) of a byte string.
pub uninterp spec fn gzip_stream(data: Seq<u8>) -> Seq<u8>;

/// `flate2::write::GzEncoder` over a `Vec`: writes `data` and finishes the
/// stream.  Writing into a `Vec` cannot fail, so the stream always comes
/// back.
#[verifier::external_body]
fn gzip_encode(data: &[u8]) -> (res: Option<Vec<u8>>)
    ensures
        res is Some,
        res matches Some(v) ==> v@ == gzip_stream(data@),
{
    let mut enc = flate2::write::GzEncoder::new(Vec::new(), flate2::Compression::default());
    let _ = enc.write_all(data);
    enc.finish().ok()
}

/// Gzip-compresses `data`.
pub fn gzip_bytes(data: &[u8]) -> (r: Vec<u8>)
    ensures
        r@ == gzip_stream(data@),
{
    match gzip_encode(data) {
        Some(v) => v,
        None => slice_to_vec(data),
    }
}

} // verus!
