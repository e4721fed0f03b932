//! Every path the proxy serves, and what each of them comes to.

use vstd::prelude::*;
use vstd::string::*;
use vstd::utf8::*;

use crate::audit::{rejected, AuditLine, AuditRecord, RecordView, Rejected};
use crate::config::Scope;
use crate::error::{ProxyError, ProxyResult};
use crate::json::{Json, JsonView, NumberView};
use crate::operations::{self, Admitted, Denied, Trail, TrailView};
use crate::state::{Caller, CallerView, Live};
use crate::text::{from_bytes, same, split};

verus! {

// ---------------------------------------------------------------------------
// Paths
// ---------------------------------------------------------------------------

/// What a request asks for.
#[derive(Debug)]
pub enum Route {
    Healthz,
    Info,
    GraphqlSchema,
    Graphql,
    Playground,
    ListSites,
    /// The site stands here as it does in the path, as do those below.
    ListVouchers { site: String },
    CreateVouchers { site: String },
    DeleteVoucher { site: String, voucher: String },
    NotAllowed,
}

/// What a request asks for, as the contracts speak of it.
pub ghost enum RouteView {
    Healthz,
    Info,
    GraphqlSchema,
    Graphql,
    Playground,
    ListSites,
    ListVouchers { site: Seq<char> },
    CreateVouchers { site: Seq<char> },
    DeleteVoucher { site: Seq<char>, voucher: Seq<char> },
    NotAllowed,
}

impl View for Route {
    type V = RouteView;

    open spec fn view(&self) -> RouteView {
        match self {
            Route::Healthz => RouteView::Healthz,
            Route::Info => RouteView::Info,
            Route::GraphqlSchema => RouteView::GraphqlSchema,
            Route::Graphql => RouteView::Graphql,
            Route::Playground => RouteView::Playground,
            Route::ListSites => RouteView::ListSites,
            Route::ListVouchers { site } => RouteView::ListVouchers { site: site@ },
            Route::CreateVouchers { site } => RouteView::CreateVouchers { site: site@ },
            Route::DeleteVoucher { site, voucher } => RouteView::DeleteVoucher {
                site: site@,
                voucher: voucher@,
            },
            Route::NotAllowed => RouteView::NotAllowed,
        }
    }
}

/// What stands between the slashes of a path.
pub open spec fn segments(path: Seq<char>) -> Seq<Seq<char>> {
    crate::text::pieces(path, '/')
}

/// Whether a method reads: the answer to `HEAD` is that to `GET` without a body.
pub open spec fn is_read(method: Seq<char>) -> bool {
    method == "GET"@ || method == "HEAD"@
}

/// Whether a path leads to the vouchers of a site, or to something below them.
pub open spec fn leads_to_vouchers(s: Seq<Seq<char>>) -> bool {
    &&& s.len() >= 9
    &&& s[0].len() == 0
    &&& s[1] == "proxy"@
    &&& s[2] == "network"@
    &&& s[3] == "integration"@
    &&& s[4] == "v1"@
    &&& s[5] == "sites"@
    &&& s[6].len() > 0
    &&& s[7] == "hotspot"@
    &&& s[8] == "vouchers"@
}

/// What a request asks for. Anything that is not named here is refused rather
/// than forwarded, a known path under another method included.
pub open spec fn route_for(method: Seq<char>, path: Seq<char>, playground: bool) -> RouteView {
    let s = segments(path);
    if path == "/healthz"@ {
        if is_read(method) {
            RouteView::Healthz
        } else {
            RouteView::NotAllowed
        }
    } else if path == "/proxy/info"@ {
        if is_read(method) {
            RouteView::Info
        } else {
            RouteView::NotAllowed
        }
    } else if path == "/graphql/schema"@ {
        if is_read(method) {
            RouteView::GraphqlSchema
        } else {
            RouteView::NotAllowed
        }
    } else if path == "/graphql"@ {
        if method == "POST"@ {
            RouteView::Graphql
        } else if is_read(method) && playground {
            RouteView::Playground
        } else {
            RouteView::NotAllowed
        }
    } else if path == "/proxy/network/integration/v1/sites"@ {
        if is_read(method) {
            RouteView::ListSites
        } else {
            RouteView::NotAllowed
        }
    } else if leads_to_vouchers(s) && s.len() == 9 {
        if is_read(method) {
            RouteView::ListVouchers { site: s[6] }
        } else if method == "POST"@ {
            RouteView::CreateVouchers { site: s[6] }
        } else {
            RouteView::NotAllowed
        }
    } else if leads_to_vouchers(s) && s.len() == 10 && s[9].len() > 0 {
        if method == "DELETE"@ {
            RouteView::DeleteVoucher { site: s[6], voucher: s[9] }
        } else {
            RouteView::NotAllowed
        }
    } else {
        RouteView::NotAllowed
    }
}

fn reads(method: &str) -> (r: bool)
    ensures
        r == is_read(method@),
{
    same(method, "GET") || same(method, "HEAD")
}

fn under_vouchers(s: &Vec<String>) -> (r: bool)
    ensures
        r == leads_to_vouchers(crate::text::texts(s@)),
{
    s.len() >= 9 && s[0].as_str().is_empty() && same(s[1].as_str(), "proxy") && same(
        s[2].as_str(),
        "network",
    ) && same(s[3].as_str(), "integration") && same(s[4].as_str(), "v1") && same(
        s[5].as_str(),
        "sites",
    ) && !s[6].as_str().is_empty() && same(s[7].as_str(), "hotspot") && same(
        s[8].as_str(),
        "vouchers",
    )
}

/// Tells what a request asks for, where the explorer is not served.
pub fn router(method: &str, path: &str) -> (r: Route)
    ensures
        r@ == route_for(method@, path@, false),
{
    router_with(method, path, false)
}

/// Tells what a request asks for.
pub fn router_with(method: &str, path: &str, playground: bool) -> (r: Route)
    ensures
        r@ == route_for(method@, path@, playground),
{
    if same(path, "/healthz") {
        return if reads(method) {
            Route::Healthz
        } else {
            Route::NotAllowed
        };
    }
    if same(path, "/proxy/info") {
        return if reads(method) {
            Route::Info
        } else {
            Route::NotAllowed
        };
    }
    if same(path, "/graphql/schema") {
        return if reads(method) {
            Route::GraphqlSchema
        } else {
            Route::NotAllowed
        };
    }
    if same(path, "/graphql") {
        return if same(method, "POST") {
            Route::Graphql
        } else if reads(method) && playground {
            Route::Playground
        } else {
            Route::NotAllowed
        };
    }
    if same(path, "/proxy/network/integration/v1/sites") {
        return if reads(method) {
            Route::ListSites
        } else {
            Route::NotAllowed
        };
    }
    let s = split(path, '/');
    let ghost all = crate::text::texts(s@);
    if !under_vouchers(&s) {
        return Route::NotAllowed;
    }
    let site = s[6].as_str().to_owned();
    assert(site@ == all[6]);
    if s.len() == 9 {
        if reads(method) {
            return Route::ListVouchers { site };
        }
        if same(method, "POST") {
            return Route::CreateVouchers { site };
        }
        return Route::NotAllowed;
    }
    if s.len() == 10 && !s[9].as_str().is_empty() && same(method, "DELETE") {
        let voucher = s[9].as_str().to_owned();
        assert(voucher@ == all[9]);
        return Route::DeleteVoucher { site, voucher };
    }
    Route::NotAllowed
}

// ---------------------------------------------------------------------------
// Labels for paths
// ---------------------------------------------------------------------------

/// What a path is counted under: itself where it is served, with a word in place
/// of each parameter, and one word for everything else.
pub open spec fn path_label(path: Seq<char>) -> Seq<char> {
    let s = segments(path);
    if path == "/healthz"@ || path == "/proxy/info"@ || path == "/graphql/schema"@ || path
        == "/graphql"@ || path == "/proxy/network/integration/v1/sites"@ {
        path
    } else if leads_to_vouchers(s) && s.len() == 9 {
        "/proxy/network/integration/v1/sites/{site}/hotspot/vouchers"@
    } else if leads_to_vouchers(s) && s.len() == 10 && s[9].len() > 0 {
        "/proxy/network/integration/v1/sites/{site}/hotspot/vouchers/{voucher}"@
    } else {
        "other"@
    }
}

/// Everything that a path can be counted under.
pub open spec fn path_labels() -> Seq<Seq<char>> {
    seq![
        "/healthz"@,
        "/proxy/info"@,
        "/graphql/schema"@,
        "/graphql"@,
        "/proxy/network/integration/v1/sites"@,
        "/proxy/network/integration/v1/sites/{site}/hotspot/vouchers"@,
        "/proxy/network/integration/v1/sites/{site}/hotspot/vouchers/{voucher}"@,
        "other"@,
    ]
}

/// What a path is counted under.
pub fn label_of(path: &str) -> (r: String)
    ensures
        r@ == path_label(path@),
{
    if same(path, "/healthz") || same(path, "/proxy/info") || same(path, "/graphql/schema")
        || same(path, "/graphql") || same(path, "/proxy/network/integration/v1/sites") {
        return path.to_owned();
    }
    let s = split(path, '/');
    let ghost all = segments(path@);
    if !under_vouchers(&s) {
        return "other".to_owned();
    }
    if s.len() == 9 {
        return "/proxy/network/integration/v1/sites/{site}/hotspot/vouchers".to_owned();
    }
    if s.len() == 10 {
        assert(all[9] == s@[9]@);
        if !s[9].as_str().is_empty() {
            return "/proxy/network/integration/v1/sites/{site}/hotspot/vouchers/{voucher}".to_owned();
        }
    }
    "other".to_owned()
}

/// However a client chooses a path, it is counted under one of a few labels.
pub proof fn a_path_is_counted_under_a_fixed_label(path: Seq<char>)
    ensures
        path_labels().contains(path_label(path)),
{
    let all = path_labels();
    assert(all[0] == "/healthz"@);
    assert(all[1] == "/proxy/info"@);
    assert(all[2] == "/graphql/schema"@);
    assert(all[3] == "/graphql"@);
    assert(all[4] == "/proxy/network/integration/v1/sites"@);
    assert(all[5] == "/proxy/network/integration/v1/sites/{site}/hotspot/vouchers"@);
    assert(all[6] == "/proxy/network/integration/v1/sites/{site}/hotspot/vouchers/{voucher}"@);
    assert(all[7] == "other"@);
}

// ---------------------------------------------------------------------------
// Escapes in paths
// ---------------------------------------------------------------------------

/// The value of a hexadecimal digit.
pub open spec fn nibble(b: u8) -> Option<u8> {
    if 48 <= b <= 57 {
        Some((b - 48) as u8)
    } else if 97 <= b <= 102 {
        Some((b - 87) as u8)
    } else if 65 <= b <= 70 {
        Some((b - 55) as u8)
    } else {
        None
    }
}

/// Whether some bytes start with an escape: a percent sign and two hexadecimal
/// digits.
pub open spec fn starts_with_escape(s: Seq<u8>) -> bool {
    s.len() >= 3 && s[0] == 37 && nibble(s[1]) is Some && nibble(s[2]) is Some
}

/// Bytes with every escape replaced by the byte it stands for. A percent sign
/// that starts no escape stands for itself.
pub open spec fn unescaped(s: Seq<u8>) -> Seq<u8>
    decreases s.len(),
{
    if s.len() == 0 {
        seq![]
    } else if starts_with_escape(s) {
        seq![(nibble(s[1])->0 * 16 + nibble(s[2])->0) as u8] + unescaped(s.skip(3))
    } else {
        seq![s[0]] + unescaped(s.skip(1))
    }
}

/// What a path segment stands for; `None` where that is no text.
pub open spec fn segment_text(raw: Seq<char>) -> Option<Seq<char>> {
    let bytes = unescaped(encode_utf8(raw));
    if valid_utf8(bytes) {
        Some(decode_utf8(bytes))
    } else {
        None
    }
}

fn nibble_of(b: u8) -> (r: Option<u8>)
    ensures
        r == nibble(b),
        r matches Some(n) ==> n < 16,
{
    if 48 <= b && b <= 57 {
        Some(b - 48)
    } else if 97 <= b && b <= 102 {
        Some(b - 87)
    } else if 65 <= b && b <= 70 {
        Some(b - 55)
    } else {
        None
    }
}

fn unescape(s: &[u8]) -> (r: Vec<u8>)
    ensures
        r@ == unescaped(s@),
{
    let mut r: Vec<u8> = Vec::new();
    let mut i: usize = 0;
    assert(s@.skip(0) =~= s@);
    assert(r@ + unescaped(s@.skip(0)) =~= unescaped(s@));
    while i < s.len()
        invariant
            i <= s@.len(),
            r@ + unescaped(s@.skip(i as int)) == unescaped(s@),
        decreases s.len() - i,
    {
        let ghost rest = s@.skip(i as int);
        let ghost before = r@;
        let b: u8 = s[i];
        assert(rest[0] == b);
        if b == 37 && s.len() - i >= 3 {
            assert(rest[1] == s@[i + 1] && rest[2] == s@[i + 2]);
            if let (Some(h), Some(l)) = (nibble_of(s[i + 1]), nibble_of(s[i + 2])) {
                let byte: u8 = h * 16 + l;
                r.push(byte);
                proof {
                    assert(rest.skip(3) =~= s@.skip(i + 3));
                    assert(r@ + unescaped(s@.skip(i + 3)) =~= before + unescaped(rest));
                }
                i += 3;
                continue ;
            }
        }
        r.push(b);
        proof {
            assert(rest.skip(1) =~= s@.skip(i + 1));
            assert(r@ + unescaped(s@.skip(i + 1)) =~= before + unescaped(rest));
        }
        i += 1;
    }
    assert(s@.skip(i as int) =~= seq![]);
    assert(r@ + unescaped(s@.skip(i as int)) =~= r@);
    r
}

/// A path whose parameter is no text once its escapes are resolved.
#[derive(Debug)]
pub struct PathFault {
    pub message: String,
}

/// Reads a parameter of a path. A parameter that is no text is refused before
/// anything else looks at it.
pub fn decode_segment(raw: &str, key: &str) -> (r: Result<String, PathFault>)
    ensures
        match segment_text(raw@) {
            Some(s) => r is Ok && r->Ok_0@ == s,
            None => r is Err && r->Err_0.message@ == "Invalid URL: Invalid UTF-8 in `"@ + key@
                + "`"@,
        },
{
    match from_bytes(unescape(raw.as_bytes())) {
        Some(s) => Ok(s),
        None => {
            let mut m = "Invalid URL: Invalid UTF-8 in `".to_owned();
            m.append(key);
            m.append("`");
            Err(PathFault { message: m })
        },
    }
}

// ---------------------------------------------------------------------------
// Answers that need no controller
// ---------------------------------------------------------------------------

/// A list of texts as a document.
pub open spec fn text_list(items: Seq<Seq<char>>) -> JsonView {
    JsonView::Array(items.map_values(|s: Seq<char>| JsonView::Text(s)))
}

/// A number as a document.
pub open spec fn number(n: u64) -> JsonView {
    JsonView::Number(NumberView::Unsigned(n))
}

fn member(name: &str, value: Json) -> (r: (String, Json))
    ensures
        r.0@ == name@,
        r.1@ == value@,
{
    (name.to_owned(), value)
}

fn object(members: Vec<(String, Json)>) -> (r: Json)
    ensures
        r@ == JsonView::Object(crate::json::member_views(members@)),
{
    let r = Json::Object(members);
    proof {
        crate::json::lemma_container_views(r);
    }
    r
}

fn list_of_texts(items: &Vec<String>) -> (r: Json)
    ensures
        r@ == text_list(crate::text::texts(items@)),
{
    let ghost all = crate::text::texts(items@);
    let mut list: Vec<Json> = Vec::new();
    let mut i: usize = 0;
    while i < items.len()
        invariant
            i <= items@.len(),
            all == crate::text::texts(items@),
            crate::json::views(list@) == all.take(i as int).map_values(
                |s: Seq<char>| JsonView::Text(s),
            ),
        decreases items.len() - i,
    {
        let ghost before = list@;
        list.push(Json::string(items[i].as_str()));
        i += 1;
        proof {
            assert(crate::json::views(list@) =~= crate::json::views(before).push(
                JsonView::Text(all[i - 1]),
            ));
            assert(all.take(i as int) =~= all.take(i - 1).push(all[i - 1]));
            assert(all.take(i as int).map_values(|s: Seq<char>| JsonView::Text(s)) =~= all.take(
                i - 1,
            ).map_values(|s: Seq<char>| JsonView::Text(s)).push(JsonView::Text(all[i - 1])));
        }
    }
    assert(all.take(i as int) =~= all);
    let r = Json::Array(list);
    proof {
        crate::json::lemma_container_views(r);
    }
    r
}

/// The names of some scopes.
pub open spec fn scope_names(scopes: Seq<Scope>) -> Seq<Seq<char>> {
    scopes.map_values(|s: Scope| s.name())
}

pub(crate) fn names_of(scopes: &Vec<Scope>) -> (r: Vec<String>)
    ensures
        crate::text::texts(r@) == scope_names(scopes@),
{
    let mut r: Vec<String> = Vec::new();
    let mut i: usize = 0;
    while i < scopes.len()
        invariant
            i <= scopes@.len(),
            crate::text::texts(r@) == scope_names(scopes@.take(i as int)),
        decreases scopes.len() - i,
    {
        let ghost before = r@;
        r.push(scopes[i].as_str().to_owned());
        i += 1;
        proof {
            assert(crate::text::texts(r@) =~= crate::text::texts(before).push(
                scopes@[i - 1].name(),
            ));
            assert(scopes@.take(i as int) =~= scopes@.take(i - 1).push(scopes@[i - 1]));
            assert(scope_names(scopes@.take(i as int)) =~= scope_names(scopes@.take(i - 1)).push(
                scopes@[i - 1].name(),
            ));
        }
    }
    assert(scopes@.take(i as int) =~= scopes@);
    r
}

/// Unauthenticated liveness probe. Reveals nothing about the controller.
pub fn healthz() -> (r: Json)
    ensures
        r@ == JsonView::Object(
            seq![
                ("service"@, JsonView::Text("unifi-voucher-proxy"@)),
                ("status"@, JsonView::Text("ok"@)),
            ],
        ),
{
    let mut members: Vec<(String, Json)> = Vec::new();
    members.push(member("service", Json::string("unifi-voucher-proxy")));
    members.push(member("status", Json::string("ok")));
    assert(crate::json::member_views(members@) =~= seq![
        ("service"@, JsonView::Text("unifi-voucher-proxy"@)),
        ("status"@, JsonView::Text("ok"@)),
    ]);
    object(members)
}

/// What a client is told of its own grants.
pub open spec fn info_members(caller: CallerView, version: Seq<char>) -> Seq<
    (Seq<char>, JsonView),
> {
    seq![
        (
            "limits"@,
            JsonView::Object(
                seq![
                    ("maxValidityMinutes"@, number(caller.ceilings.max_validity_minutes)),
                    ("maxVouchersPerRequest"@, number(caller.ceilings.max_vouchers as u64)),
                ],
            ),
        ),
        ("scopes"@, text_list(scope_names(caller.token.scopes))),
        ("service"@, JsonView::Text("unifi-voucher-proxy"@)),
        ("sites"@, text_list(caller.token.sites)),
        ("token"@, JsonView::Text(caller.token.name)),
        ("version"@, JsonView::Text(version)),
    ]
}

/// Tells an authenticated client what it is actually allowed to do, so a UI can
/// hide controls instead of letting the user hit a 403.
pub fn info(caller: &Caller, version: &str) -> (r: Json)
    ensures
        r@ == JsonView::Object(info_members(caller@, version@)),
{
    let mut limits: Vec<(String, Json)> = Vec::new();
    limits.push(
        member("maxValidityMinutes", Json::integer(caller.ceilings.max_validity_minutes)),
    );
    limits.push(
        member("maxVouchersPerRequest", Json::integer(caller.ceilings.max_vouchers as u64)),
    );
    assert(crate::json::member_views(limits@) =~= seq![
        ("maxValidityMinutes"@, number(caller@.ceilings.max_validity_minutes)),
        ("maxVouchersPerRequest"@, number(caller@.ceilings.max_vouchers as u64)),
    ]);
    let mut members: Vec<(String, Json)> = Vec::new();
    members.push(member("limits", object(limits)));
    members.push(member("scopes", list_of_texts(&names_of(&caller.token.scopes))));
    members.push(member("service", Json::string("unifi-voucher-proxy")));
    members.push(member("sites", list_of_texts(&caller.token.sites)));
    members.push(member("token", Json::string(caller.token.name.as_str())));
    members.push(member("version", Json::string(version)));
    assert(crate::json::member_views(members@) =~= info_members(caller@, version@));
    object(members)
}

/// Anything the proxy does not serve: the refusal, and what the audit log is told
/// of it.
pub fn not_allowed(method: &str, path: &str) -> (r: (ProxyError, Rejected))
    ensures
        r.0 is NotAllowed,
        r.1@ == crate::audit::rejection(path@, "blocked_"@ + method@, 403),
{
    let mut reason = "blocked_".to_owned();
    reason.append(method);
    (ProxyError::NotAllowed, rejected(path, reason.as_str(), 403))
}

// ---------------------------------------------------------------------------
// Voucher operations
// ---------------------------------------------------------------------------

pub fn list_sites(live: &mut Live, caller: &Caller) -> (r: Result<Admitted, Denied>)
    ensures
        exists|ok: bool|
            operations::charged_for(
                old(live)@,
                final(live)@,
                caller@,
                "sites:list"@,
                caller@.scope_fault(Scope::SitesRead),
                operations::sites_plan(old(live)@, "sites:list"@),
                ok,
                operations::admission(r),
            ),
{
    operations::list_sites(live, caller, "sites:list")
}

pub fn list_vouchers(live: &mut Live, caller: &Caller, site: &str) -> (r: Result<Admitted, Denied>)
    ensures
        exists|ok: bool|
            operations::charged_for(
                old(live)@,
                final(live)@,
                caller@,
                "vouchers:list"@,
                operations::first_fault(
                    caller@.scope_fault(Scope::VouchersRead),
                    caller@.site_fault(site@),
                ),
                operations::vouchers_plan(old(live)@, "vouchers:list"@, site@),
                ok,
                operations::admission(r),
            ),
{
    operations::list_vouchers(live, caller, site, "vouchers:list")
}

pub fn create_vouchers(live: &mut Live, caller: &Caller, site: &str, body: &Json) -> (r: Result<
    Admitted,
    Denied,
>)
    ensures
        exists|ok: bool|
            operations::charged_for(
                old(live)@,
                final(live)@,
                caller@,
                "vouchers:create"@,
                operations::creation_fault(caller@, site@),
                operations::creation_plan_from(
                    old(live)@,
                    caller@,
                    "vouchers:create"@,
                    site@,
                    body@,
                ),
                ok,
                operations::admission(r),
            ),
{
    operations::create_vouchers(live, caller, site, "vouchers:create", body)
}

pub fn delete_voucher(live: &mut Live, caller: &Caller, site: &str, voucher: &str) -> (r: Result<
    Admitted,
    Denied,
>)
    ensures
        exists|ok: bool|
            operations::charged_for(
                old(live)@,
                final(live)@,
                caller@,
                "vouchers:revoke"@,
                operations::first_fault(
                    caller@.scope_fault(Scope::VouchersRevoke),
                    caller@.site_fault(site@),
                ),
                operations::revocation_plan(old(live)@, "vouchers:revoke"@, site@, voucher@),
                ok,
                operations::admission(r),
            ),
{
    operations::delete_voucher(live, caller, site, voucher, "vouchers:revoke")
}

/// Whether an entry of a list of sites is one that a caller may use.
pub open spec fn is_visible(caller: CallerView, site: JsonView) -> bool {
    match site.get("id"@) {
        Some(JsonView::Text(id)) => caller.token.allows_site(id),
        _ => false,
    }
}

/// A list of sites as a caller is shown it.
pub open spec fn visible(caller: CallerView, sites: Seq<JsonView>) -> Seq<JsonView> {
    sites.filter(|site: JsonView| is_visible(caller, site))
}

/// The answer to a request for the sites, as a caller is shown it. An answer in
/// an unexpected shape is passed through untouched.
pub open spec fn filtered(caller: CallerView, body: JsonView) -> JsonView {
    if caller.token.sites.contains("*"@) {
        body
    } else {
        match body.get("data"@) {
            Some(JsonView::Array(sites)) => JsonView::Object(
                seq![("data"@, JsonView::Array(visible(caller, sites)))],
            ),
            _ => body,
        }
    }
}

fn sees(caller: &Caller, site: &Json) -> (r: bool)
    ensures
        r == is_visible(caller@, site@),
{
    match site.get("id") {
        Some(Json::Text(id)) => caller.token.allows_site(id.as_str()),
        _ => false,
    }
}

/// A token scoped to specific sites must not learn that other sites exist.
pub fn filter_sites(body: Json, caller: &Caller) -> (r: Json)
    ensures
        r@ == filtered(caller@, body@),
{
    if caller.token.has_wildcard() {
        return body;
    }
    let kept = match body.get("data") {
        Some(list) => {
            proof {
                crate::json::lemma_container_views(*list);
            }
            match list {
                Json::Array(sites) => Some(visible_of(caller, sites)),
                _ => None,
            }
        },
        None => None,
    };
    match kept {
        Some(sites) => {
            let list = Json::Array(sites);
            proof {
                crate::json::lemma_container_views(list);
            }
            let ghost shown = list@;
            let mut members: Vec<(String, Json)> = Vec::new();
            members.push(member("data", list));
            assert(crate::json::member_views(members@) =~= seq![("data"@, shown)]);
            object(members)
        },
        None => body,
    }
}

fn visible_of(caller: &Caller, sites: &Vec<Json>) -> (r: Vec<Json>)
    ensures
        crate::json::views(r@) == visible(caller@, crate::json::views(sites@)),
{
    let ghost all = crate::json::views(sites@);
    let mut r: Vec<Json> = Vec::new();
    let mut i: usize = 0;
    proof {
        reveal(Seq::filter);
        assert(crate::json::views(r@) =~= visible(caller@, all.take(0)));
    }
    while i < sites.len()
        invariant
            i <= sites@.len(),
            all == crate::json::views(sites@),
            crate::json::views(r@) == visible(caller@, all.take(i as int)),
        decreases sites.len() - i,
    {
        let ghost before = r@;
        let shown = sees(caller, &sites[i]);
        proof {
            reveal(Seq::filter);
            assert(all.take(i + 1).drop_last() =~= all.take(i as int));
            assert(all.take(i + 1).last() == sites@[i as int]@);
        }
        if shown {
            r.push(sites[i].clone());
            assert(crate::json::views(r@) =~= crate::json::views(before).push(all[i as int]));
        }
        i += 1;
    }
    assert(all.take(i as int) =~= all);
    r
}

// ---------------------------------------------------------------------------
// Completed operations
// ---------------------------------------------------------------------------

/// The audit record of a completed operation.
pub open spec fn completion(
    caller: CallerView,
    trail: TrailView,
    elapsed: u128,
    result: Result<JsonView, crate::error::ErrorView>,
) -> RecordView {
    RecordView {
        token: caller.token.name,
        action: trail.action,
        site: trail.site,
        target: trail.target,
        count: trail.count,
        status: match result {
            Ok(_) => 200,
            Err(e) => e.status(),
        },
        outcome: match result {
            Ok(_) => "ok"@,
            Err(e) => e.kind(),
        },
        elapsed,
    }
}

/// Gives the audit line for a completed operation, which took `elapsed`
/// nanoseconds, and hands its result on.
pub fn finish(caller: &Caller, trail: Trail, elapsed: u128, result: ProxyResult<Json>) -> (r: (
    AuditLine,
    ProxyResult<Json>,
))
    ensures
        r.0@ == completion(caller@, trail@, elapsed, crate::upstream::document(result)).line(),
        r.1 == result,
{
    let (status, outcome): (u16, String) = match &result {
        Ok(_) => (200, "ok".to_owned()),
        Err(e) => (e.status(), e.kind().to_owned()),
    };
    let record = AuditRecord {
        token: caller.name().to_owned(),
        action: trail.action,
        site: trail.site,
        target: trail.target,
        count: trail.count,
        status,
        outcome,
        elapsed,
    };
    (record.emit(), result)
}

// ---------------------------------------------------------------------------
// What holds of routes
// ---------------------------------------------------------------------------

proof fn lemma_segments_join(path: Seq<char>)
    ensures
        segments(path).len() > 0,
        crate::text::joined(segments(path), "/"@) == path,
    decreases path.len(),
{
    reveal_strlit("/");
    if path.len() == 0 {
        assert(crate::text::joined(segments(path), "/"@) =~= path);
    } else {
        let front = segments(path.drop_last());
        lemma_segments_join(path.drop_last());
        let all = segments(path);
        if path.last() == '/' {
            assert(all.drop_last() =~= front);
            assert(crate::text::joined(all, "/"@) =~= path.drop_last() + "/"@);
            assert(path.drop_last() + "/"@ =~= path);
        } else {
            assert(all.drop_last() =~= front.drop_last());
            assert(crate::text::joined(all, "/"@) =~= crate::text::joined(front, "/"@).push(
                path.last(),
            ));
            assert(path.drop_last().push(path.last()) =~= path);
        }
    }
}

proof fn lemma_joined_push(parts: Seq<Seq<char>>, part: Seq<char>)
    requires
        parts.len() > 0,
    ensures
        crate::text::joined(parts.push(part), "/"@) == crate::text::joined(parts, "/"@) + "/"@
            + part,
{
    assert(parts.push(part).drop_last() =~= parts);
}

/// Nothing but the named paths is served: a request for a site's vouchers, or for
/// one of them, has exactly the path of the UniFi Integration API for it, with
/// the site and the voucher in their places.
pub proof fn only_voucher_paths_lead_to_the_controller(
    method: Seq<char>,
    path: Seq<char>,
    playground: bool,
)
    ensures
        match route_for(method, path, playground) {
            RouteView::ListSites => path == "/proxy/network/integration/v1/sites"@,
            RouteView::ListVouchers { site } => path == voucher_path(site),
            RouteView::CreateVouchers { site } => path == voucher_path(site),
            RouteView::DeleteVoucher { site, voucher } => path == voucher_path(site) + "/"@
                + voucher,
            _ => true,
        },
{
    let s = segments(path);
    lemma_segments_join(path);
    if leads_to_vouchers(s) {
        lemma_voucher_path(s.take(9));
        if s.len() == 9 {
            assert(s.take(9) =~= s);
        } else if s.len() == 10 {
            assert(s =~= s.take(9).push(s[9]));
            lemma_joined_push(s.take(9), s[9]);
        }
    }
}

/// The path of a site's vouchers, as the proxy serves it.
pub open spec fn voucher_path(site: Seq<char>) -> Seq<char> {
    "/proxy/network/integration/v1/sites/"@ + site + "/hotspot/vouchers"@
}

proof fn lemma_voucher_path(s: Seq<Seq<char>>)
    requires
        leads_to_vouchers(s),
        s.len() == 9,
    ensures
        crate::text::joined(s, "/"@) == voucher_path(s[6]),
{
    reveal_strlit("");
    assert(s[0] =~= ""@);
    let one = seq![s[0]];
    assert(crate::text::joined(one, "/"@) == s[0]);
    lemma_joined_push(one, s[1]);
    let two = one.push(s[1]);
    lemma_joined_push(two, s[2]);
    let three = two.push(s[2]);
    lemma_joined_push(three, s[3]);
    let four = three.push(s[3]);
    lemma_joined_push(four, s[4]);
    let five = four.push(s[4]);
    lemma_joined_push(five, s[5]);
    let six = five.push(s[5]);
    lemma_joined_push(six, s[6]);
    let seven = six.push(s[6]);
    lemma_joined_push(seven, s[7]);
    let eight = seven.push(s[7]);
    lemma_joined_push(eight, s[8]);
    assert(eight.push(s[8]) =~= s);
    reveal_strlit("/");
    reveal_strlit("proxy");
    reveal_strlit("network");
    reveal_strlit("integration");
    reveal_strlit("v1");
    reveal_strlit("sites");
    reveal_strlit("hotspot");
    reveal_strlit("vouchers");
    reveal_strlit("/proxy/network/integration/v1/sites/");
    reveal_strlit("/hotspot/vouchers");
    let root = crate::text::joined(six, "/"@) + "/"@;
    assert(root =~= "/proxy/network/integration/v1/sites/"@);
    let tail = "/"@ + "hotspot"@ + "/"@ + "vouchers"@;
    assert(tail =~= "/hotspot/vouchers"@);
    assert(crate::text::joined(s, "/"@) =~= root + s[6] + tail);
}

proof fn lemma_voucher_segments(site: Seq<char>)
    requires
        site.len() > 0,
        !site.contains('/'),
    ensures
        leads_to_vouchers(segments(voucher_path(site))),
        segments(voucher_path(site)).len() == 9,
{
    reveal_strlit("");
    reveal_strlit("proxy");
    reveal_strlit("network");
    reveal_strlit("integration");
    reveal_strlit("v1");
    reveal_strlit("sites");
    reveal_strlit("hotspot");
    reveal_strlit("vouchers");
    reveal_strlit("/proxy/network/integration/v1/sites/");
    reveal_strlit("/hotspot/vouchers");
    let p0 = Seq::<char>::empty();
    let p1 = p0.push('/') + "proxy"@;
    let p2 = p1.push('/') + "network"@;
    let p3 = p2.push('/') + "integration"@;
    let p4 = p3.push('/') + "v1"@;
    let p5 = p4.push('/') + "sites"@;
    let p6 = p5.push('/') + site;
    let p7 = p6.push('/') + "hotspot"@;
    let p8 = p7.push('/') + "vouchers"@;
    crate::text::lemma_one_piece_more(p0, '/', "proxy"@);
    crate::text::lemma_one_piece_more(p1, '/', "network"@);
    crate::text::lemma_one_piece_more(p2, '/', "integration"@);
    crate::text::lemma_one_piece_more(p3, '/', "v1"@);
    crate::text::lemma_one_piece_more(p4, '/', "sites"@);
    crate::text::lemma_one_piece_more(p5, '/', site);
    crate::text::lemma_one_piece_more(p6, '/', "hotspot"@);
    crate::text::lemma_one_piece_more(p7, '/', "vouchers"@);
    assert(segments(p0) =~= seq![Seq::<char>::empty()]);
    assert(p5.push('/') =~= "/proxy/network/integration/v1/sites/"@);
    assert(p8 =~= voucher_path(site));
}

/// Requests for the vouchers of any two sites are counted under one label, and so
/// are requests for any two vouchers.
pub proof fn every_site_is_counted_alike(site: Seq<char>, voucher: Seq<char>)
    requires
        site.len() > 0,
        !site.contains('/'),
        voucher.len() > 0,
        !voucher.contains('/'),
    ensures
        path_label(voucher_path(site))
            == "/proxy/network/integration/v1/sites/{site}/hotspot/vouchers"@,
        path_label(voucher_path(site) + "/"@ + voucher)
            == "/proxy/network/integration/v1/sites/{site}/hotspot/vouchers/{voucher}"@,
{
    reveal_strlit("/");
    reveal_strlit("/healthz");
    reveal_strlit("/proxy/info");
    reveal_strlit("/graphql/schema");
    reveal_strlit("/graphql");
    reveal_strlit("/proxy/network/integration/v1/sites");
    reveal_strlit("/proxy/network/integration/v1/sites/");
    lemma_voucher_segments(site);
    let path = voucher_path(site);
    let below = path + "/"@ + voucher;
    crate::text::lemma_one_piece_more(path, '/', voucher);
    assert(below =~= path.push('/') + voucher);
    assert("/healthz"@.len() < path.len());
    assert("/proxy/info"@.len() < path.len());
    assert("/graphql/schema"@.len() < path.len());
    assert("/graphql"@.len() < path.len());
    assert("/proxy/network/integration/v1/sites"@.len() < path.len());
}

proof fn lemma_no_escapes(s: Seq<u8>)
    requires
        forall|i: int| 0 <= i < s.len() ==> #[trigger] s[i] != 37,
    ensures
        unescaped(s) == s,
    decreases s.len(),
{
    if s.len() > 0 {
        let rest = s.skip(1);
        assert forall|i: int| 0 <= i < rest.len() implies #[trigger] rest[i] != 37 by {
            assert(rest[i] == s[i + 1]);
        }
        lemma_no_escapes(rest);
        assert(seq![s[0]] + rest =~= s);
    } else {
        assert(unescaped(s) =~= s);
    }
}

/// An id in a path means itself: a client that writes an id plainly reaches that
/// very site or voucher.
pub proof fn an_id_in_a_path_means_itself(id: Seq<char>)
    requires
        crate::upstream::is_id(id),
    ensures
        segment_text(id) == Some(id),
{
    assert forall|i: int| 0 <= i < id.len() implies '\0' <= #[trigger] id[i] <= '\u{7f}' by {
        assert(crate::upstream::is_id_char(id[i]));
    }
    assert(is_ascii_chars(id));
    is_ascii_chars_encode_utf8(id);
    let bytes = encode_utf8(id);
    assert forall|i: int| 0 <= i < bytes.len() implies #[trigger] bytes[i] != 37 by {
        assert(crate::upstream::is_id_char(id[i]));
        assert(bytes[i] == id[i] as u8);
    }
    lemma_no_escapes(bytes);
    encode_utf8_valid_utf8(id);
    encode_utf8_decode_utf8(id);
}

/// A token restricted to some sites is not told of any other: every site that it
/// is shown is one that it may use, and each of those that were listed is shown.
pub proof fn a_restricted_token_sees_only_its_sites(
    caller: CallerView,
    body: JsonView,
    sites: Seq<JsonView>,
)
    requires
        !caller.token.sites.contains("*"@),
        body.get("data"@) == Some(JsonView::Array(sites)),
    ensures
        filtered(caller, body) == JsonView::Object(
            seq![("data"@, JsonView::Array(visible(caller, sites)))],
        ),
        forall|i: int|
            0 <= i < visible(caller, sites).len() ==> is_visible(
                caller,
                #[trigger] visible(caller, sites)[i],
            ),
        forall|i: int|
            0 <= i < sites.len() && is_visible(caller, #[trigger] sites[i]) ==> visible(
                caller,
                sites,
            ).contains(sites[i]),
{
    broadcast use vstd::seq_lib::group_filter_ensures;

}

/// The audit log holds nothing of what the controller answered: whatever came
/// back, voucher codes included, a success leaves the same record, and an error
/// leaves its status and its kind alone.
pub proof fn the_audit_log_holds_nothing_of_an_answer(
    caller: CallerView,
    trail: TrailView,
    elapsed: u128,
    a: Result<JsonView, crate::error::ErrorView>,
    b: Result<JsonView, crate::error::ErrorView>,
)
    requires
        a is Ok <==> b is Ok,
        a is Err ==> a->Err_0.status() == b->Err_0.status() && a->Err_0.kind()
            == b->Err_0.kind(),
    ensures
        completion(caller, trail, elapsed, a) == completion(caller, trail, elapsed, b),
{
}

/// Every path that is served is, under the methods for it and no other: with a site
/// and a voucher that are not empty and hold no slash, whatever else is in them.
pub proof fn every_served_path_is_routed(
    method: Seq<char>,
    site: Seq<char>,
    voucher: Seq<char>,
    playground: bool,
)
    requires
        site.len() > 0,
        !site.contains('/'),
        voucher.len() > 0,
        !voucher.contains('/'),
    ensures
        ({
            let reads = method == "GET"@ || method == "HEAD"@;
            let refused = RouteView::NotAllowed;
            let sites = "/proxy/network/integration/v1/sites"@;
            let vouchers = sites + "/"@ + site + "/hotspot/vouchers"@;
            &&& route_for(method, "/healthz"@, playground) == (if reads {
                RouteView::Healthz
            } else {
                refused
            })
            &&& route_for(method, "/proxy/info"@, playground) == (if reads {
                RouteView::Info
            } else {
                refused
            })
            &&& route_for(method, "/graphql/schema"@, playground) == (if reads {
                RouteView::GraphqlSchema
            } else {
                refused
            })
            &&& route_for(method, "/graphql"@, playground) == (if method == "POST"@ {
                RouteView::Graphql
            } else if reads && playground {
                RouteView::Playground
            } else {
                refused
            })
            &&& route_for(method, sites, playground) == (if reads {
                RouteView::ListSites
            } else {
                refused
            })
            &&& route_for(method, vouchers, playground) == (if reads {
                RouteView::ListVouchers { site }
            } else if method == "POST"@ {
                RouteView::CreateVouchers { site }
            } else {
                refused
            })
            &&& route_for(method, vouchers + "/"@ + voucher, playground) == (if method
                == "DELETE"@ {
                RouteView::DeleteVoucher { site, voucher }
            } else {
                refused
            })
        }),
{
    reveal_strlit("/");
    reveal_strlit("/healthz");
    reveal_strlit("/proxy/info");
    reveal_strlit("/graphql/schema");
    reveal_strlit("/graphql");
    reveal_strlit("/proxy/network/integration/v1/sites");
    reveal_strlit("/proxy/network/integration/v1/sites/");
    assert("/healthz"@[1] == 'h');
    assert("/proxy/info"@[7] == 'i');
    assert("/proxy/network/integration/v1/sites"@[7] == 'n');
    assert("/graphql/schema"@.len() == 15);
    assert("/graphql"@.len() == 8);
    assert("/graphql/schema"@[1] == 'g');
    assert("/graphql"@[1] == 'g');
    assert("/proxy/info"@[1] == 'p');
    assert("/proxy/network/integration/v1/sites"@[1] == 'p');
    let path = voucher_path(site);
    let below = path + "/"@ + voucher;
    assert("/proxy/network/integration/v1/sites/"@ =~= "/proxy/network/integration/v1/sites"@
        + "/"@);
    assert("/proxy/network/integration/v1/sites"@ + "/"@ + site + "/hotspot/vouchers"@ =~= path);
    lemma_voucher_segments(site);
    lemma_the_site_of(site);
    crate::text::lemma_one_piece_more(path, '/', voucher);
    assert(below =~= path.push('/') + voucher);
    assert("/healthz"@.len() < path.len());
    assert("/proxy/info"@.len() < path.len());
    assert("/graphql/schema"@.len() < path.len());
    assert("/graphql"@.len() < path.len());
    assert("/proxy/network/integration/v1/sites"@.len() < path.len());
}

proof fn lemma_the_site_of(site: Seq<char>)
    requires
        site.len() > 0,
        !site.contains('/'),
    ensures
        segments(voucher_path(site))[6] == site,
{
    lemma_voucher_segments(site);
    lemma_segments_join(voucher_path(site));
    let s = segments(voucher_path(site));
    lemma_voucher_path(s);
    let front = "/proxy/network/integration/v1/sites/"@;
    let back = "/hotspot/vouchers"@;
    assert(front + site + back == front + s[6] + back);
    assert(site.len() == s[6].len());
    assert((front + site + back).subrange(front.len() as int, front.len() as int + site.len())
        =~= site);
    assert((front + s[6] + back).subrange(front.len() as int, front.len() as int + site.len())
        =~= s[6]);
}

/// What is answered is what was asked for: no path but the fixed ones leads to
/// anything that is not about vouchers.
pub proof fn only_the_fixed_paths_are_served_beside_vouchers(
    method: Seq<char>,
    path: Seq<char>,
    playground: bool,
)
    ensures
        match route_for(method, path, playground) {
            RouteView::Healthz => path == "/healthz"@ && (method == "GET"@ || method == "HEAD"@),
            RouteView::Info => path == "/proxy/info"@ && (method == "GET"@ || method == "HEAD"@),
            RouteView::GraphqlSchema => path == "/graphql/schema"@ && (method == "GET"@ || method
                == "HEAD"@),
            RouteView::Graphql => path == "/graphql"@ && method == "POST"@,
            RouteView::Playground => path == "/graphql"@ && playground && (method == "GET"@
                || method == "HEAD"@),
            RouteView::ListSites => method == "GET"@ || method == "HEAD"@,
            RouteView::ListVouchers { .. } => method == "GET"@ || method == "HEAD"@,
            RouteView::CreateVouchers { .. } => method == "POST"@,
            RouteView::DeleteVoucher { .. } => method == "DELETE"@,
            RouteView::NotAllowed => true,
        },
{
}

/// A path that is served under no method is counted with all others of its kind,
/// and one that is served is not.
pub proof fn an_unserved_path_is_counted_as_other(path: Seq<char>)
    ensures
        path_label(path) == "other"@ <==> route_for("GET"@, path, true) is NotAllowed && route_for(
            "POST"@,
            path,
            true,
        ) is NotAllowed && route_for("DELETE"@, path, true) is NotAllowed,
{
    reveal_strlit("GET");
    reveal_strlit("POST");
    reveal_strlit("DELETE");
    reveal_strlit("HEAD");
    reveal_strlit("other");
    reveal_strlit("/healthz");
    reveal_strlit("/proxy/info");
    reveal_strlit("/graphql/schema");
    reveal_strlit("/graphql");
    reveal_strlit("/proxy/network/integration/v1/sites");
    reveal_strlit("/proxy/network/integration/v1/sites/{site}/hotspot/vouchers");
    reveal_strlit("/proxy/network/integration/v1/sites/{site}/hotspot/vouchers/{voucher}");
    assert("other"@.len() == 5);
    assert("GET"@.len() == 3 && "POST"@.len() == 4 && "DELETE"@.len() == 6);
    assert("DELETE"@.len() != "HEAD"@.len());
}

/// A digit of hexadecimal, in either case.
pub open spec fn hex_of(n: int, capital: bool) -> u8 {
    if n < 10 {
        (48 + n) as u8
    } else if capital {
        (55 + n) as u8
    } else {
        (87 + n) as u8
    }
}

/// An escape stands for the byte whose value it writes in hexadecimal, in either
/// case; any byte but a percent sign stands for itself, and so does a percent sign
/// that starts no escape. Whatever follows is read alike.
pub proof fn an_escape_stands_for_its_byte(
    b: u8,
    high: bool,
    low: bool,
    plain: u8,
    rest: Seq<u8>,
)
    ensures
        unescaped(seq![37u8, hex_of(b as int / 16, high), hex_of(b as int % 16, low)] + rest)
            == seq![b] + unescaped(rest),
        plain != 37 ==> unescaped(seq![plain] + rest) == seq![plain] + unescaped(rest),
        rest.len() < 2 ==> unescaped(seq![37u8] + rest) == seq![37u8] + unescaped(rest),
        unescaped(Seq::<u8>::empty()) == Seq::<u8>::empty(),
{
    let s = seq![37u8, hex_of(b as int / 16, high), hex_of(b as int % 16, low)] + rest;
    assert(s.skip(3) =~= rest);
    assert(nibble(s[1]) == Some((b as int / 16) as u8));
    assert(nibble(s[2]) == Some((b as int % 16) as u8));
    assert((seq![plain] + rest).skip(1) =~= rest);
    assert((seq![37u8] + rest).skip(1) =~= rest);
}

/// A client that asks about itself is told its own name, sites and scopes and the
/// ceilings that apply to it, each under its name, and nothing of any other token.
pub proof fn a_client_is_told_its_own_grants(caller: CallerView, version: Seq<char>)
    ensures
        ({
            let members = info_members(caller, version);
            &&& members.len() == 6
            &&& members.contains(("token"@, JsonView::Text(caller.token.name)))
            &&& members.contains(("version"@, JsonView::Text(version)))
            &&& members.contains(("service"@, JsonView::Text("unifi-voucher-proxy"@)))
            &&& members.contains(
                (
                    "sites"@,
                    JsonView::Array(
                        Seq::new(
                            caller.token.sites.len(),
                            |i: int| JsonView::Text(caller.token.sites[i]),
                        ),
                    ),
                ),
            )
            &&& members.contains(
                (
                    "scopes"@,
                    JsonView::Array(
                        Seq::new(
                            caller.token.scopes.len(),
                            |i: int| JsonView::Text(caller.token.scopes[i].name()),
                        ),
                    ),
                ),
            )
            &&& members.contains(
                (
                    "limits"@,
                    JsonView::Object(
                        seq![
                            (
                                "maxValidityMinutes"@,
                                JsonView::Number(
                                    NumberView::Unsigned(caller.ceilings.max_validity_minutes),
                                ),
                            ),
                            (
                                "maxVouchersPerRequest"@,
                                JsonView::Number(
                                    NumberView::Unsigned(caller.ceilings.max_vouchers as u64),
                                ),
                            ),
                        ],
                    ),
                ),
            )
        }),
{
    let members = info_members(caller, version);
    assert(text_list(caller.token.sites)->Array_0 =~= Seq::new(
        caller.token.sites.len(),
        |i: int| JsonView::Text(caller.token.sites[i]),
    ));
    assert(text_list(scope_names(caller.token.scopes))->Array_0 =~= Seq::new(
        caller.token.scopes.len(),
        |i: int| JsonView::Text(caller.token.scopes[i].name()),
    ));
    assert(members[0].0 == "limits"@ && members[1].0 == "scopes"@ && members[2].0 == "service"@
        && members[3].0 == "sites"@ && members[4].0 == "token"@ && members[5].0 == "version"@);
}

/// A list of sites is shown in its order, and each entry exactly where its id is a
/// text that the caller's own list holds. A caller with the wildcard is shown the
/// whole answer, and so is any caller where the answer holds no list.
pub proof fn a_site_is_shown_iff_it_is_listed_for_the_token(
    caller: CallerView,
    body: JsonView,
    a: Seq<JsonView>,
    b: Seq<JsonView>,
    site: JsonView,
)
    ensures
        caller.token.sites.contains("*"@) ==> filtered(caller, body) == body,
        body.get("data"@) is None ==> filtered(caller, body) == body,
        visible(caller, a + b) == visible(caller, a) + visible(caller, b),
        !caller.token.sites.contains("*"@) ==> visible(caller, seq![site]) == (if site.get(
            "id"@,
        ) is Some && site.get("id"@)->0 is Text && caller.token.sites.contains(
            site.get("id"@)->0->Text_0,
        ) {
            seq![site]
        } else {
            seq![]
        }),
{
    let keep = |site: JsonView| is_visible(caller, site);
    Seq::filter_distributes_over_add(a, b, keep);
    reveal(Seq::filter);
    assert(seq![site].drop_last() =~= seq![]);
    assert(seq![site].drop_last().filter(keep) =~= seq![]);
    assert(seq![site].last() == site);
    if let Some(JsonView::Text(id)) = site.get("id"@) {
        crate::config::a_token_opens_the_sites_it_lists(caller.token, id);
    }
    assert(keep(site) == is_visible(caller, site));
    assert(visible(caller, seq![site]) =~= (if is_visible(caller, site) {
        seq![site]
    } else {
        seq![]
    }));
}

/// A completed operation is recorded under its caller's name with what it was about:
/// as a success with 200, and otherwise with the status and the kind of its error.
pub proof fn a_completion_is_recorded_as_it_went(
    caller: CallerView,
    trail: TrailView,
    elapsed: u128,
    result: Result<JsonView, crate::error::ErrorView>,
)
    ensures
        ({
            let r = completion(caller, trail, elapsed, result);
            &&& r.token == caller.token.name
            &&& r.action == trail.action
            &&& r.site == trail.site
            &&& r.target == trail.target
            &&& r.count == trail.count
            &&& r.elapsed == elapsed
            &&& result is Ok ==> r.status == 200 && r.outcome == "ok"@
            &&& result is Err ==> r.status == result->Err_0.status() && r.outcome
                == result->Err_0.kind()
        }),
{
}

/// A parameter of a path is read as the text that its bytes spell once the escapes are
/// resolved, and is refused exactly where they spell none.
pub proof fn a_parameter_is_the_text_that_its_bytes_spell(raw: Seq<char>)
    ensures
        segment_text(raw) is Some <==> valid_utf8(unescaped(encode_utf8(raw))),
        segment_text(raw) matches Some(s) ==> encode_utf8(s) == unescaped(encode_utf8(raw)),
{
    let bytes = unescaped(encode_utf8(raw));
    if valid_utf8(bytes) {
        decode_utf8_encode_utf8(bytes);
    }
}

} // verus!
