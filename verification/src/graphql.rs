//! The GraphQL surface over the same operations the REST routes expose.
//!
//! This layer adds convenience, not reach. Every resolver goes through the same
//! [`Caller`] — scopes, site allowlist, quotas and request policy — and calls
//! the same [`Upstream`](crate::upstream::Upstream) methods. There is no
//! resolver that can touch anything the REST side cannot.
//!
//! GraphQL does bring two amplification risks that REST does not: a document can
//! nest arbitrarily (bounded by depth and complexity limits) and can ask for
//! many things at once (each upstream call is charged against the caller's quota
//! individually, and request batching is not accepted).

use vstd::prelude::*;
use vstd::string::*;

use crate::audit::{AuditLine, AuditRecord, RecordView};
use crate::config::Scope;
use crate::error::{GraphqlError, ProxyError};
use crate::json::{Json, JsonView};
use crate::model::{Site, SiteView, Voucher};
use crate::operations::{self, Admitted, AdmittedView, Denied};
use crate::policy::{CreateVoucherRequest, RequestView};
use crate::state::{Caller, CallerView, Live, LiveView};
use crate::text::{count_bytes, has_prefix, trim_start};

verus! {

/// Query depth beyond this is refused. The schema is flat, so anything deep is
/// either a mistake or an attempt to make the server work for nothing.
pub const MAX_DEPTH: usize = 8;

/// Rough ceiling on total fields resolved in one document.
pub const MAX_COMPLEXITY: usize = 256;

/// Maps a proxy error onto a GraphQL error, keeping the HTTP status and the
/// machine-readable kind in extensions so clients can branch on them.
pub fn to_gql(err: &ProxyError) -> (r: GraphqlError)
    ensures
        r.message@ == err@.message(),
        r.code@ == err@.kind(),
        r.status == err@.status(),
{
    err.to_gql()
}

/// What the calling token is allowed to do.
#[derive(Debug)]
pub struct TokenInfo {
    /// The token's label, as it appears in the audit log.
    pub name: String,
    /// Site ids this token may use; `["*"]` means all of them.
    pub sites: Vec<String>,
    pub scopes: Vec<String>,
    pub max_vouchers_per_request: i32,
    pub max_validity_minutes: i64,
}

/// Result of revoking a voucher.
#[derive(Debug)]
pub struct RevokeResult {
    pub id: String,
    pub revoked: bool,
}

#[derive(Debug)]
pub struct CreateVoucherInput {
    /// Label shown on the voucher.
    pub name: String,
    /// How many to create. Bounded by the token's ceiling.
    pub count: u32,
    /// Validity once redeemed. Bounded by the token's ceiling.
    pub time_limit_minutes: u64,
    /// Devices allowed per voucher.
    pub authorized_guest_limit: u32,
    pub data_usage_limit_m_bytes: Option<u64>,
    pub rx_rate_limit_kbps: Option<u64>,
    pub tx_rate_limit_kbps: Option<u64>,
}

impl From<CreateVoucherInput> for CreateVoucherRequest {
    fn from(i: CreateVoucherInput) -> (r: Self) {
        CreateVoucherRequest {
            name: i.name,
            count: i.count,
            time_limit_minutes: i.time_limit_minutes,
            authorized_guest_limit: i.authorized_guest_limit,
            data_usage_limit_m_bytes: i.data_usage_limit_m_bytes,
            rx_rate_limit_kbps: i.rx_rate_limit_kbps,
            tx_rate_limit_kbps: i.tx_rate_limit_kbps,
        }
    }
}

impl vstd::std_specs::convert::FromSpecImpl<CreateVoucherInput> for CreateVoucherRequest {
    open spec fn obeys_from_spec() -> bool {
        true
    }

    open spec fn from_spec(i: CreateVoucherInput) -> Self {
        CreateVoucherRequest {
            name: i.name,
            count: i.count,
            time_limit_minutes: i.time_limit_minutes,
            authorized_guest_limit: i.authorized_guest_limit,
            data_usage_limit_m_bytes: i.data_usage_limit_m_bytes,
            rx_rate_limit_kbps: i.rx_rate_limit_kbps,
            tx_rate_limit_kbps: i.tx_rate_limit_kbps,
        }
    }
}

/// A number in the 32 bits of a GraphQL `Int`, which wraps beyond them.
pub open spec fn as_int32(n: u32) -> int {
    if n <= i32::MAX {
        n as int
    } else {
        n - 0x1_0000_0000
    }
}

/// A number in 64 signed bits, which wraps beyond them.
pub open spec fn as_int64(n: u64) -> int {
    if n <= i64::MAX {
        n as int
    } else {
        n - 0x1_0000_0000_0000_0000
    }
}

pub struct Query;

pub struct Mutation;

/// The sites that a caller is shown of an upstream document.
pub open spec fn shown_sites(caller: CallerView, body: JsonView) -> Seq<SiteView> {
    crate::model::sites_in(crate::model::list_in(body)).filter(
        |s: SiteView| caller.token.allows_site(s.id),
    )
}

impl Query {
    /// What this token may do. Needs no scope — a client is always allowed to
    /// ask about itself, and it is how a UI knows which controls to show.
    pub fn info(&self, caller: &Caller) -> (r: TokenInfo)
        ensures
            r.name@ == caller@.token.name,
            crate::text::texts(r.sites@) == caller@.token.sites,
            crate::text::texts(r.scopes@) == crate::routes::scope_names(caller@.token.scopes),
            r.max_vouchers_per_request == as_int32(caller@.ceilings.max_vouchers),
            r.max_validity_minutes == as_int64(caller@.ceilings.max_validity_minutes),
    {
        let vouchers: u32 = caller.ceilings.max_vouchers;
        let minutes: u64 = caller.ceilings.max_validity_minutes;
        let copy = caller.token.clone();
        TokenInfo {
            name: caller.token.name.as_str().to_owned(),
            sites: copy.sites,
            scopes: crate::routes::names_of(&caller.token.scopes),
            max_vouchers_per_request: if vouchers <= i32::MAX as u32 {
                vouchers as i32
            } else {
                (vouchers as i64 - 0x1_0000_0000) as i32
            },
            max_validity_minutes: if minutes <= i64::MAX as u64 {
                minutes as i64
            } else {
                (minutes as i128 - 0x1_0000_0000_0000_0000) as i64
            },
        }
    }

    /// Asks for the sites this token may use.
    pub fn sites(&self, live: &mut Live, caller: &Caller) -> (r: Result<Admitted, Denied>)
        ensures
            exists|ok: bool|
                operations::charged_for(
                    old(live)@,
                    final(live)@,
                    caller@,
                    "graphql:sites"@,
                    caller@.scope_fault(Scope::SitesRead),
                    operations::sites_plan(old(live)@, "graphql:sites"@),
                    ok,
                    operations::admission(r),
                ),
    {
        operations::list_sites(live, caller, "graphql:sites")
    }

    /// What a caller is shown of the controller's answer. Sites outside its
    /// allowlist are not listed.
    pub fn sites_shown(&self, body: &Json, caller: &Caller) -> (r: Vec<Site>)
        ensures
            crate::model::site_views(r@) == shown_sites(caller@, body@),
    {
        let sites = Site::list(body);
        let ghost all = crate::model::site_views(sites@);
        let ghost keep = |s: SiteView| caller@.token.allows_site(s.id);
        let mut r: Vec<Site> = Vec::new();
        let mut i: usize = 0;
        proof {
            reveal(Seq::filter);
            assert(crate::model::site_views(r@) =~= all.take(0).filter(keep));
        }
        while i < sites.len()
            invariant
                i <= sites@.len(),
                all == crate::model::site_views(sites@),
                keep == (|s: SiteView| caller@.token.allows_site(s.id)),
                crate::model::site_views(r@) == all.take(i as int).filter(keep),
            decreases sites.len() - i,
        {
            let ghost before = r@;
            proof {
                reveal(Seq::filter);
                assert(all.take(i + 1).drop_last() =~= all.take(i as int));
            }
            if caller.token.allows_site(sites[i].id.as_str()) {
                r.push(sites[i].clone());
                assert(crate::model::site_views(r@) =~= crate::model::site_views(before).push(
                    all[i as int],
                ));
            }
            i += 1;
        }
        assert(all.take(i as int) =~= all);
        r
    }

    /// Asks for the vouchers on a site.
    pub fn vouchers(&self, live: &mut Live, caller: &Caller, site_id: &str) -> (r: Result<
        Admitted,
        Denied,
    >)
        ensures
            exists|ok: bool|
                operations::charged_for(
                    old(live)@,
                    final(live)@,
                    caller@,
                    "graphql:vouchers"@,
                    operations::first_fault(
                        caller@.scope_fault(Scope::VouchersRead),
                        caller@.site_fault(site_id@),
                    ),
                    operations::vouchers_plan(old(live)@, "graphql:vouchers"@, site_id@),
                    ok,
                    operations::admission(r),
                ),
    {
        operations::list_vouchers(live, caller, site_id, "graphql:vouchers")
    }
}

impl Mutation {
    /// Asks for vouchers to be created.
    pub fn create_vouchers(
        &self,
        live: &mut Live,
        caller: &Caller,
        site_id: &str,
        input: CreateVoucherInput,
    ) -> (r: Result<Admitted, Denied>)
        ensures
            exists|ok: bool|
                operations::charged_for(
                    old(live)@,
                    final(live)@,
                    caller@,
                    "graphql:createVouchers"@,
                    operations::creation_fault(caller@, site_id@),
                    operations::creation_plan(
                        old(live)@,
                        caller@,
                        "graphql:createVouchers"@,
                        site_id@,
                        (crate::policy::RequestView {
                            name: input.name@,
                            count: input.count,
                            time_limit_minutes: input.time_limit_minutes,
                            authorized_guest_limit: input.authorized_guest_limit,
                            data_usage_limit_m_bytes: input.data_usage_limit_m_bytes,
                            rx_rate_limit_kbps: input.rx_rate_limit_kbps,
                            tx_rate_limit_kbps: input.tx_rate_limit_kbps,
                        }),
                    ),
                    ok,
                    operations::admission(r),
                ),
    {
        let request = CreateVoucherRequest::from(input);
        operations::create_requested(live, caller, site_id, "graphql:createVouchers", &request)
    }

    /// Asks for a voucher to be revoked.
    pub fn revoke_voucher(
        &self,
        live: &mut Live,
        caller: &Caller,
        site_id: &str,
        voucher_id: &str,
    ) -> (r: Result<Admitted, Denied>)
        ensures
            exists|ok: bool|
                operations::charged_for(
                    old(live)@,
                    final(live)@,
                    caller@,
                    "graphql:revokeVoucher"@,
                    operations::first_fault(
                        caller@.scope_fault(Scope::VouchersRevoke),
                        caller@.site_fault(site_id@),
                    ),
                    operations::revocation_plan(
                        old(live)@,
                        "graphql:revokeVoucher"@,
                        site_id@,
                        voucher_id@,
                    ),
                    ok,
                    operations::admission(r),
                ),
    {
        operations::delete_voucher(live, caller, site_id, voucher_id, "graphql:revokeVoucher")
    }

    /// The answer once a voucher is revoked.
    pub fn revoked(&self, voucher_id: String) -> (r: RevokeResult)
        ensures
            r == (RevokeResult { id: voucher_id, revoked: true }),
    {
        RevokeResult { id: voucher_id, revoked: true }
    }
}

/// The vouchers of the controller's answer, for a query as for a mutation.
pub fn vouchers_shown(body: &Json) -> (r: Vec<Voucher>)
    ensures
        crate::model::voucher_views(r@) == crate::model::vouchers_in(crate::model::list_in(body@)),
{
    Voucher::list(body)
}

// ---------------------------------------------------------------------------
// The audit trail of documents
// ---------------------------------------------------------------------------

/// Whether a document is a query or a mutation.
pub open spec fn kind_of(query: Seq<char>) -> Seq<char> {
    if "mutation"@.is_prefix_of(crate::text::start_trimmed(query)) {
        "mutation"@
    } else {
        "query"@
    }
}

/// What is recorded of a document: what it is and how long, and nothing of what
/// it says.
pub open spec fn shape_of(query: Seq<char>) -> JsonView {
    JsonView::Object(
        seq![
            ("bytes"@, crate::routes::number(crate::text::byte_length(query) as u64)),
            ("kind"@, JsonView::Text(kind_of(query))),
        ],
    )
}

/// Describes a GraphQL document without recording the document itself (variables
/// can carry voucher names).
pub fn shape(query: &str) -> (r: Json)
    ensures
        r@ == shape_of(query@),
{
    let kind = if has_prefix(trim_start(query).as_str(), "mutation") {
        "mutation"
    } else {
        "query"
    };
    let mut members: Vec<(String, Json)> = Vec::new();
    members.push(("bytes".to_owned(), Json::integer(count_bytes(query) as u64)));
    members.push(("kind".to_owned(), Json::string(kind)));
    let r = Json::Object(members);
    proof {
        crate::json::lemma_container_views(r);
        assert(crate::json::member_views(members@) =~= shape_of(query@)->Object_0);
    }
    r
}

/// Audit helper: describes a GraphQL document in one field for the log line.
pub fn describe(query: &str) -> (r: String)
    ensures
        r@ == crate::json::rendered(shape_of(query@)),
{
    shape(query).to_text()
}

/// The audit record of a document that was run.
pub open spec fn document_record(
    caller: CallerView,
    described: Seq<char>,
    ok: bool,
    elapsed: u128,
) -> RecordView {
    RecordView {
        token: caller.token.name,
        action: "graphql"@,
        site: None,
        target: Some(described),
        count: None,
        status: if ok {
            200
        } else {
            400
        },
        outcome: if ok {
            "ok"@
        } else {
            "graphql_errors"@
        },
        elapsed,
    }
}

/// The audit line of a document that was run, which took `elapsed` nanoseconds;
/// `described` is what [`describe`] says of it. The document itself is not
/// logged: variables can carry guest names.
pub fn document_line(caller: &Caller, described: String, ok: bool, elapsed: u128) -> (r: AuditLine)
    ensures
        r@ == document_record(caller@, described@, ok, elapsed).line(),
{
    let record = AuditRecord {
        token: caller.name().to_owned(),
        action: "graphql".to_owned(),
        site: None,
        target: Some(described),
        count: None,
        status: if ok {
            200
        } else {
            400
        },
        outcome: if ok {
            "ok".to_owned()
        } else {
            "graphql_errors".to_owned()
        },
        elapsed,
    };
    record.emit()
}

/// Two documents of the same kind and length leave the same trace: the audit log
/// holds nothing of what a document says.
pub proof fn the_audit_log_holds_only_the_shape_of_a_document(a: Seq<char>, b: Seq<char>)
    requires
        kind_of(a) == kind_of(b),
        crate::text::byte_length(a) == crate::text::byte_length(b),
    ensures
        shape_of(a) == shape_of(b),
{
}

/// Sites outside a token's allowlist are not listed over GraphQL either.
pub proof fn only_allowed_sites_are_shown(caller: CallerView, body: JsonView, i: int)
    requires
        0 <= i < shown_sites(caller, body).len(),
    ensures
        caller.token.allows_site(shown_sites(caller, body)[i].id),
{
    broadcast use vstd::seq_lib::group_filter_ensures;

}

/// Whether an operation that was let through asks for something that the caller
/// was granted, and cost it one unit of its quota.
pub open spec fn is_granted_and_paid_for(
    before: LiveView,
    after: LiveView,
    caller: CallerView,
    op: AdmittedView,
) -> bool {
    &&& op.call matches Ok(call) ==> operations::is_granted(before.upstream, caller, call)
    &&& before.rate.token_spent(after.rate, caller.token.name, true)
}

/// GraphQL adds no reach: whatever a resolver makes the proxy ask of the
/// controller, the caller was granted by its scopes, its sites and its ceilings,
/// and paid for out of its quota, one unit for each call.
pub proof fn graphql_adds_no_reach(
    before: LiveView,
    after: LiveView,
    caller: CallerView,
    site: Seq<char>,
    voucher: Seq<char>,
    request: RequestView,
    ok: bool,
    op: AdmittedView,
)
    ensures
        operations::charged_for(
            before,
            after,
            caller,
            "graphql:sites"@,
            caller.scope_fault(Scope::SitesRead),
            operations::sites_plan(before, "graphql:sites"@),
            ok,
            Ok(op),
        ) ==> is_granted_and_paid_for(before, after, caller, op),
        operations::charged_for(
            before,
            after,
            caller,
            "graphql:vouchers"@,
            operations::first_fault(
                caller.scope_fault(Scope::VouchersRead),
                caller.site_fault(site),
            ),
            operations::vouchers_plan(before, "graphql:vouchers"@, site),
            ok,
            Ok(op),
        ) ==> is_granted_and_paid_for(before, after, caller, op),
        operations::charged_for(
            before,
            after,
            caller,
            "graphql:createVouchers"@,
            operations::creation_fault(caller, site),
            operations::creation_plan(before, caller, "graphql:createVouchers"@, site, request),
            ok,
            Ok(op),
        ) ==> is_granted_and_paid_for(before, after, caller, op),
        operations::charged_for(
            before,
            after,
            caller,
            "graphql:revokeVoucher"@,
            operations::first_fault(
                caller.scope_fault(Scope::VouchersRevoke),
                caller.site_fault(site),
            ),
            operations::revocation_plan(before, "graphql:revokeVoucher"@, site, voucher),
            ok,
            Ok(op),
        ) ==> is_granted_and_paid_for(before, after, caller, op),
{
    let body = JsonView::Object(crate::policy::upstream_members(request));
    if crate::policy::refusal(request, caller.ceilings) is None {
        assert(operations::is_within_ceilings(caller, body));
    }
}

/// Whether a token lists a site or the wildcard.
pub open spec fn lists(caller: CallerView, s: SiteView) -> bool {
    caller.token.sites.contains("*"@) || caller.token.sites.contains(s.id)
}

/// The sites of an answer are shown in its order, each exactly where the token lists
/// it or the wildcard.
pub proof fn the_allowed_sites_are_all_shown(caller: CallerView, body: JsonView)
    ensures
        shown_sites(caller, body) == crate::model::sites_in(crate::model::list_in(body)).filter(
            |s: SiteView| lists(caller, s),
        ),
{
    let keep = |s: SiteView| caller.token.allows_site(s.id);
    let listed = |s: SiteView| lists(caller, s);
    assert forall|s: SiteView| #[trigger] keep(s) == listed(s) by {
        crate::config::a_token_opens_the_sites_it_lists(caller.token, s.id);
    }
    assert(keep =~= listed);
}

/// Over GraphQL the very request is made that the input describes.
pub proof fn an_input_is_the_request_it_describes(i: CreateVoucherInput)
    ensures
        ({
            let r = <CreateVoucherRequest as vstd::std_specs::convert::FromSpec<
                CreateVoucherInput,
            >>::from_spec(i);
            &&& r.name == i.name
            &&& r.count == i.count
            &&& r.time_limit_minutes == i.time_limit_minutes
            &&& r.authorized_guest_limit == i.authorized_guest_limit
            &&& r.data_usage_limit_m_bytes == i.data_usage_limit_m_bytes
            &&& r.rx_rate_limit_kbps == i.rx_rate_limit_kbps
            &&& r.tx_rate_limit_kbps == i.tx_rate_limit_kbps
        }),
{
}

/// A document is a mutation exactly where it starts with that word, behind any white
/// space, and its length is told in bytes. It is recorded under its caller's name, as
/// a success with 200 and otherwise with 400.
pub proof fn a_document_is_recorded_by_its_kind_and_length(
    query: Seq<char>,
    caller: CallerView,
    described: Seq<char>,
    ok: bool,
    elapsed: u128,
)
    ensures
        kind_of(query) == "mutation"@ <==> "mutation"@.is_prefix_of(
            crate::text::start_trimmed(query),
        ),
        kind_of(query) == "mutation"@ || kind_of(query) == "query"@,
        shape_of(query).get("kind"@) == Some(JsonView::Text(kind_of(query))),
        shape_of(query).get("bytes"@) == Some(
            JsonView::Number(
                crate::json::NumberView::Unsigned(crate::text::byte_length(query) as u64),
            ),
        ),
        ({
            let r = document_record(caller, described, ok, elapsed);
            &&& r.token == caller.token.name
            &&& r.action == "graphql"@
            &&& r.target == Some(described)
            &&& r.site is None
            &&& r.count is None
            &&& r.elapsed == elapsed
            &&& ok ==> r.status == 200 && r.outcome == "ok"@
            &&& !ok ==> r.status == 400 && r.outcome == "graphql_errors"@
        }),
{
    reveal_strlit("mutation");
    reveal_strlit("query");
    reveal_strlit("bytes");
    reveal_strlit("kind");
    assert("mutation"@.len() == 8 && "query"@.len() == 5);
    assert("bytes"@.len() == 5 && "kind"@.len() == 4);
    reveal_with_fuel(JsonView::member, 3);
    let members = shape_of(query)->Object_0;
    assert(members.drop_first()[0] == members[1]);
}

/// A ceiling that fits is told as it is.
pub proof fn a_ceiling_that_fits_is_told_as_it_is(n: u32, m: u64)
    ensures
        n <= 2_147_483_647 ==> as_int32(n) == n,
        m <= 9_223_372_036_854_775_807 ==> as_int64(m) == m,
{
}

} // verus!
