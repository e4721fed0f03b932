//! The four things a client can have done, whichever way it asks.
//!
//! Every one of them goes the same way: the caller's scope and site are looked
//! at, its quota is spent, whatever it sent is read and held against its
//! ceilings, and only then is there a call to the controller.

use vstd::prelude::*;
use vstd::string::*;

use crate::audit::{rejected_token, Rejected, RejectedView};
use crate::config::Scope;
use crate::error::{ErrorView, ProxyError, ProxyResult};
use crate::json::{Json, JsonView};
use crate::policy::{CreateVoucherRequest, RequestView};
use crate::state::{Caller, CallerView, Live, LiveView};
use crate::upstream::{CallView, UpstreamCall, UpstreamView};

verus! {

/// What the audit log will say an operation was about.
#[derive(Debug)]
pub struct Trail {
    pub action: String,
    pub site: Option<String>,
    pub target: Option<String>,
    pub count: Option<u32>,
}

/// What an operation was about, as the contracts speak of it.
pub ghost struct TrailView {
    pub action: Seq<char>,
    pub site: Option<Seq<char>>,
    pub target: Option<Seq<char>>,
    pub count: Option<u32>,
}

impl View for Trail {
    type V = TrailView;

    open spec fn view(&self) -> TrailView {
        TrailView {
            action: self.action@,
            site: crate::model::text_option(self.site),
            target: crate::model::text_option(self.target),
            count: self.count,
        }
    }
}

/// An operation that was let through.
pub struct Admitted {
    /// The call to make, or why there is none.
    pub call: ProxyResult<UpstreamCall>,
    pub trail: Trail,
}

/// An operation that was let through, as the contracts speak of it.
pub ghost struct AdmittedView {
    pub call: Result<CallView, ErrorView>,
    pub trail: TrailView,
}

/// A call or an error, each taken by its view.
pub open spec fn call_view(r: ProxyResult<UpstreamCall>) -> Result<CallView, ErrorView> {
    match r {
        Ok(call) => Ok(call@),
        Err(e) => Err(e@),
    }
}

impl View for Admitted {
    type V = AdmittedView;

    open spec fn view(&self) -> AdmittedView {
        AdmittedView { call: call_view(self.call), trail: self.trail@ }
    }
}

/// An operation that was refused, and what the audit log is told of it.
#[derive(Debug)]
pub struct Denied {
    pub error: ProxyError,
    pub audit: Rejected,
}

/// An operation that was refused, as the contracts speak of it.
pub ghost struct DeniedView {
    pub error: ErrorView,
    pub audit: RejectedView,
}

impl View for Denied {
    type V = DeniedView;

    open spec fn view(&self) -> DeniedView {
        DeniedView { error: self.error@, audit: self.audit@ }
    }
}

/// An operation that was let through or refused, each taken by its view.
pub open spec fn admission(r: Result<Admitted, Denied>) -> Result<AdmittedView, DeniedView> {
    match r {
        Ok(a) => Ok(a@),
        Err(d) => Err(d@),
    }
}

/// A refusal of what a caller asked for. The audit log has it under the caller's
/// name, with the kind and the status of the error.
pub open spec fn refused(caller: CallerView, action: Seq<char>, e: ErrorView) -> DeniedView {
    DeniedView {
        error: e,
        audit: crate::audit::rejection_of(caller.token.name, action, e.kind(), e.status()),
    }
}

/// The first of two faults.
pub open spec fn first_fault(a: Option<ErrorView>, b: Option<ErrorView>) -> Option<ErrorView> {
    match a {
        Some(e) => Some(e),
        None => b,
    }
}

/// What letting an operation through may come to. `fault` is why the caller may
/// not attempt it, if it may not: that refusal is free. Otherwise one unit of the
/// caller's quota is spent, and `ok` is whether there was one; `plan` is what
/// comes of the operation where there was. Nothing else changes.
pub open spec fn charged_for(
    before: LiveView,
    after: LiveView,
    caller: CallerView,
    action: Seq<char>,
    fault: Option<ErrorView>,
    plan: Result<AdmittedView, DeniedView>,
    ok: bool,
    r: Result<AdmittedView, DeniedView>,
) -> bool {
    match fault {
        Some(e) => after == before && r == Err::<AdmittedView, DeniedView>(refused(caller, action, e)),
        None => {
            &&& before.rate.token_spent(after.rate, caller.token.name, ok)
            &&& after == (LiveView { rate: after.rate, ..before })
            &&& r == (if ok {
                plan
            } else {
                Err(refused(caller, action, ErrorView::RateLimited))
            })
        },
    }
}

/// What asking for the sites comes to.
pub open spec fn sites_plan(live: LiveView, action: Seq<char>) -> Result<
    AdmittedView,
    DeniedView,
> {
    Ok(
        AdmittedView {
            call: Ok(live.upstream.list_sites()),
            trail: TrailView { action, site: None, target: None, count: None },
        },
    )
}

/// What asking for a site's vouchers comes to.
pub open spec fn vouchers_plan(live: LiveView, action: Seq<char>, site: Seq<char>) -> Result<
    AdmittedView,
    DeniedView,
> {
    Ok(
        AdmittedView {
            call: match crate::upstream::id_fault(site, "site id"@) {
                Some(e) => Err(e),
                None => Ok(live.upstream.list_vouchers(site)),
            },
            trail: TrailView { action, site: Some(site), target: None, count: None },
        },
    )
}

/// What asking for vouchers to be created comes to, once the request is read.
pub open spec fn creation_plan(
    live: LiveView,
    caller: CallerView,
    action: Seq<char>,
    site: Seq<char>,
    request: RequestView,
) -> Result<AdmittedView, DeniedView> {
    match crate::policy::refusal(request, caller.ceilings) {
        Some(e) => Err(refused(caller, action, e)),
        None => Ok(
            AdmittedView {
                call: match crate::upstream::id_fault(site, "site id"@) {
                    Some(e) => Err(e),
                    None => Ok(
                        live.upstream.create_vouchers(
                            site,
                            JsonView::Object(crate::policy::upstream_members(request)),
                        ),
                    ),
                },
                trail: TrailView { action, site: Some(site), target: None, count: Some(request.count) },
            },
        ),
    }
}

/// What asking for vouchers to be created comes to, where `body` is what the
/// client sent.
pub open spec fn creation_plan_from(
    live: LiveView,
    caller: CallerView,
    action: Seq<char>,
    site: Seq<char>,
    body: JsonView,
) -> Result<AdmittedView, DeniedView> {
    match crate::policy::request_in(body) {
        Ok(request) => creation_plan(live, caller, action, site, request),
        Err(why) => Err(
            refused(
                caller,
                action,
                ErrorView::BadRequest("voucher request is not acceptable: "@ + why),
            ),
        ),
    }
}

/// What asking for a voucher to be revoked comes to.
pub open spec fn revocation_plan(
    live: LiveView,
    action: Seq<char>,
    site: Seq<char>,
    voucher: Seq<char>,
) -> Result<AdmittedView, DeniedView> {
    Ok(
        AdmittedView {
            call: match first_fault(
                crate::upstream::id_fault(site, "site id"@),
                crate::upstream::id_fault(voucher, "voucher id"@),
            ) {
                Some(e) => Err(e),
                None => Ok(live.upstream.delete_voucher(site, voucher)),
            },
            trail: TrailView { action, site: Some(site), target: Some(voucher), count: None },
        },
    )
}

fn deny(caller: &Caller, action: &str, error: ProxyError) -> (r: Denied)
    ensures
        r@ == refused(caller@, action@, error@),
{
    let audit = rejected_token(caller.name(), action, error.kind(), error.status());
    Denied { error, audit }
}

fn charge(live: &mut Live, caller: &Caller, action: &str) -> (r: Result<(), Denied>)
    ensures
        old(live)@.rate.token_spent(final(live)@.rate, caller@.token.name, r is Ok),
        final(live)@ == (LiveView { rate: final(live)@.rate, ..old(live)@ }),
        r matches Err(d) ==> d@ == refused(caller@, action@, ErrorView::RateLimited),
{
    match caller.charge(&mut live.rate, action) {
        Ok(_) => Ok(()),
        Err(refusal) => Err(Denied { error: refusal.error, audit: refusal.audit }),
    }
}

/// Lets a caller list the sites.
pub fn list_sites(live: &mut Live, caller: &Caller, action: &str) -> (r: Result<Admitted, Denied>)
    ensures
        exists|ok: bool|
            charged_for(
                old(live)@,
                final(live)@,
                caller@,
                action@,
                caller@.scope_fault(Scope::SitesRead),
                sites_plan(old(live)@, action@),
                ok,
                admission(r),
            ),
{
    let ghost fault = caller@.scope_fault(Scope::SitesRead);
    let ghost plan = sites_plan(live@, action@);
    let ghost before = live@;
    if let Err(e) = caller.require_scope(Scope::SitesRead) {
        let r = Err(deny(caller, action, e));
        assert(charged_for(before, live@, caller@, action@, fault, plan, true, admission(r)));
        return r;
    }
    if let Err(d) = charge(live, caller, action) {
        let r = Err(d);
        assert(charged_for(before, live@, caller@, action@, fault, plan, false, admission(r)));
        return r;
    }
    let call = Ok(live.upstream.list_sites());
    let r = Ok(
        Admitted {
            call,
            trail: Trail { action: action.to_owned(), site: None, target: None, count: None },
        },
    );
    assert(charged_for(before, live@, caller@, action@, fault, plan, true, admission(r)));
    r
}

/// Lets a caller list a site's vouchers.
pub fn list_vouchers(live: &mut Live, caller: &Caller, site: &str, action: &str) -> (r: Result<
    Admitted,
    Denied,
>)
    ensures
        exists|ok: bool|
            charged_for(
                old(live)@,
                final(live)@,
                caller@,
                action@,
                first_fault(caller@.scope_fault(Scope::VouchersRead), caller@.site_fault(site@)),
                vouchers_plan(old(live)@, action@, site@),
                ok,
                admission(r),
            ),
{
    let ghost fault = first_fault(
        caller@.scope_fault(Scope::VouchersRead),
        caller@.site_fault(site@),
    );
    let ghost plan = vouchers_plan(live@, action@, site@);
    let ghost before = live@;
    if let Err(e) = caller.require_scope(Scope::VouchersRead) {
        let r = Err(deny(caller, action, e));
        assert(charged_for(before, live@, caller@, action@, fault, plan, true, admission(r)));
        return r;
    }
    if let Err(e) = caller.require_site(site) {
        let r = Err(deny(caller, action, e));
        assert(charged_for(before, live@, caller@, action@, fault, plan, true, admission(r)));
        return r;
    }
    if let Err(d) = charge(live, caller, action) {
        let r = Err(d);
        assert(charged_for(before, live@, caller@, action@, fault, plan, false, admission(r)));
        return r;
    }
    let call = live.upstream.list_vouchers(site);
    let r = Ok(
        Admitted {
            call,
            trail: Trail {
                action: action.to_owned(),
                site: Some(site.to_owned()),
                target: None,
                count: None,
            },
        },
    );
    assert(charged_for(before, live@, caller@, action@, fault, plan, true, admission(r)));
    r
}

fn plan_creation(
    live: &Live,
    caller: &Caller,
    site: &str,
    action: &str,
    request: &CreateVoucherRequest,
) -> (r: Result<Admitted, Denied>)
    ensures
        admission(r) == creation_plan(live@, caller@, action@, site@, request@),
{
    if let Err(e) = request.enforce(caller.ceilings) {
        return Err(deny(caller, action, e));
    }
    let body = match request.to_upstream_body() {
        Ok(body) => body,
        Err(e) => return Err(deny(caller, action, e)),
    };
    let call = live.upstream.create_vouchers(site, body);
    Ok(
        Admitted {
            call,
            trail: Trail {
                action: action.to_owned(),
                site: Some(site.to_owned()),
                target: None,
                count: Some(request.count),
            },
        },
    )
}

/// The faults that keep a caller from creating vouchers on a site.
pub open spec fn creation_fault(caller: CallerView, site: Seq<char>) -> Option<ErrorView> {
    first_fault(caller.scope_fault(Scope::VouchersCreate), caller.site_fault(site))
}

fn may_create(caller: &Caller, site: &str) -> (r: Result<(), ProxyError>)
    ensures
        match r {
            Ok(_) => creation_fault(caller@, site@) is None,
            Err(e) => creation_fault(caller@, site@) == Some(e@),
        },
{
    if let Err(e) = caller.require_scope(Scope::VouchersCreate) {
        return Err(e);
    }
    caller.require_site(site)
}

/// What letting a caller set about creating vouchers may come to. `ok` is whether
/// it had a unit of its quota left. This is all that happens before the request
/// itself is looked at.
pub open spec fn permitted(
    before: LiveView,
    after: LiveView,
    caller: CallerView,
    site: Seq<char>,
    action: Seq<char>,
    ok: bool,
    r: Result<(), DeniedView>,
) -> bool {
    match creation_fault(caller, site) {
        Some(e) => after == before && r == Err::<(), DeniedView>(refused(caller, action, e)),
        None => {
            &&& before.rate.token_spent(after.rate, caller.token.name, ok)
            &&& after == (LiveView { rate: after.rate, ..before })
            &&& r == (if ok {
                Ok(())
            } else {
                Err(refused(caller, action, ErrorView::RateLimited))
            })
        },
    }
}

/// A permission or a refusal, taken by its view.
pub open spec fn permission(r: Result<(), Denied>) -> Result<(), DeniedView> {
    match r {
        Ok(_) => Ok(()),
        Err(d) => Err(d@),
    }
}

/// Lets a caller set about creating vouchers on a site: looks at its scope and its
/// site, and spends its quota. Nothing of what it sent is needed for that.
pub fn permit_creation(live: &mut Live, caller: &Caller, site: &str, action: &str) -> (r: Result<
    (),
    Denied,
>)
    ensures
        exists|ok: bool|
            permitted(old(live)@, final(live)@, caller@, site@, action@, ok, permission(r)),
{
    let ghost before = live@;
    if let Err(e) = may_create(caller, site) {
        let r = Err(deny(caller, action, e));
        assert(permitted(before, live@, caller@, site@, action@, true, permission(r)));
        return r;
    }
    let r = charge(live, caller, action);
    assert(permitted(before, live@, caller@, site@, action@, r is Ok, permission(r)));
    r
}

/// Reads what a permitted caller sent, and holds it against its ceilings.
pub fn plan_creation_from(
    live: &Live,
    caller: &Caller,
    site: &str,
    action: &str,
    body: &Json,
) -> (r: Result<Admitted, Denied>)
    ensures
        admission(r) == creation_plan_from(live@, caller@, action@, site@, body@),
{
    match CreateVoucherRequest::parse(body) {
        Ok(request) => plan_creation(live, caller, site, action, &request),
        Err(e) => Err(deny(caller, action, e)),
    }
}

/// Lets a caller create vouchers as a document describes them. The quota is spent
/// before the document is read, so a stream of rejects is not free.
pub fn create_vouchers(
    live: &mut Live,
    caller: &Caller,
    site: &str,
    action: &str,
    body: &Json,
) -> (r: Result<Admitted, Denied>)
    ensures
        exists|ok: bool|
            charged_for(
                old(live)@,
                final(live)@,
                caller@,
                action@,
                creation_fault(caller@, site@),
                creation_plan_from(old(live)@, caller@, action@, site@, body@),
                ok,
                admission(r),
            ),
{
    let ghost fault = creation_fault(caller@, site@);
    let ghost plan = creation_plan_from(live@, caller@, action@, site@, body@);
    let ghost before = live@;
    let permit = permit_creation(live, caller, site, action);
    let ghost ok = choose|ok: bool|
        permitted(before, live@, caller@, site@, action@, ok, permission(permit));
    let r = match permit {
        Ok(_) => plan_creation_from(live, caller, site, action, body),
        Err(d) => Err(d),
    };
    assert(charged_for(before, live@, caller@, action@, fault, plan, ok, admission(r)));
    r
}

/// Lets a caller create the vouchers of a request that was already read.
pub fn create_requested(
    live: &mut Live,
    caller: &Caller,
    site: &str,
    action: &str,
    request: &CreateVoucherRequest,
) -> (r: Result<Admitted, Denied>)
    ensures
        exists|ok: bool|
            charged_for(
                old(live)@,
                final(live)@,
                caller@,
                action@,
                creation_fault(caller@, site@),
                creation_plan(old(live)@, caller@, action@, site@, request@),
                ok,
                admission(r),
            ),
{
    let ghost fault = creation_fault(caller@, site@);
    let ghost plan = creation_plan(live@, caller@, action@, site@, request@);
    let ghost before = live@;
    let permit = permit_creation(live, caller, site, action);
    let ghost ok = choose|ok: bool|
        permitted(before, live@, caller@, site@, action@, ok, permission(permit));
    let r = match permit {
        Ok(_) => plan_creation(live, caller, site, action, request),
        Err(d) => Err(d),
    };
    assert(charged_for(before, live@, caller@, action@, fault, plan, ok, admission(r)));
    r
}

/// Lets a caller revoke a voucher.
pub fn delete_voucher(
    live: &mut Live,
    caller: &Caller,
    site: &str,
    voucher: &str,
    action: &str,
) -> (r: Result<Admitted, Denied>)
    ensures
        exists|ok: bool|
            charged_for(
                old(live)@,
                final(live)@,
                caller@,
                action@,
                first_fault(caller@.scope_fault(Scope::VouchersRevoke), caller@.site_fault(site@)),
                revocation_plan(old(live)@, action@, site@, voucher@),
                ok,
                admission(r),
            ),
{
    let ghost fault = first_fault(
        caller@.scope_fault(Scope::VouchersRevoke),
        caller@.site_fault(site@),
    );
    let ghost plan = revocation_plan(live@, action@, site@, voucher@);
    let ghost before = live@;
    if let Err(e) = caller.require_scope(Scope::VouchersRevoke) {
        let r = Err(deny(caller, action, e));
        assert(charged_for(before, live@, caller@, action@, fault, plan, true, admission(r)));
        return r;
    }
    if let Err(e) = caller.require_site(site) {
        let r = Err(deny(caller, action, e));
        assert(charged_for(before, live@, caller@, action@, fault, plan, true, admission(r)));
        return r;
    }
    if let Err(d) = charge(live, caller, action) {
        let r = Err(d);
        assert(charged_for(before, live@, caller@, action@, fault, plan, false, admission(r)));
        return r;
    }
    let call = live.upstream.delete_voucher(site, voucher);
    let r = Ok(
        Admitted {
            call,
            trail: Trail {
                action: action.to_owned(),
                site: Some(site.to_owned()),
                target: Some(voucher.to_owned()),
                count: None,
            },
        },
    );
    assert(charged_for(before, live@, caller@, action@, fault, plan, true, admission(r)));
    r
}

// ---------------------------------------------------------------------------
// What holds of operations
// ---------------------------------------------------------------------------

/// Whether a call to the controller is one that a caller was granted: one of the
/// named calls, under a scope that the caller carries, for a site that it may
/// use, with ids that are ids.
pub open spec fn is_granted(upstream: UpstreamView, caller: CallerView, call: CallView) -> bool {
    ||| call == upstream.list_sites() && caller.token.scopes.contains(Scope::SitesRead)
    ||| exists|site: Seq<char>|
        call == #[trigger] upstream.list_vouchers(site) && caller.token.scopes.contains(
            Scope::VouchersRead,
        ) && caller.token.allows_site(site) && crate::upstream::id_fault(
            site,
            "site id"@,
        ) is None
    ||| exists|site: Seq<char>, voucher: Seq<char>|
        call == #[trigger] upstream.delete_voucher(site, voucher)
            && caller.token.scopes.contains(Scope::VouchersRevoke) && caller.token.allows_site(
            site,
        ) && crate::upstream::id_fault(site, "site id"@) is None && crate::upstream::id_fault(
            voucher,
            "voucher id"@,
        ) is None
    ||| exists|site: Seq<char>, body: JsonView|
        call == #[trigger] upstream.create_vouchers(site, body) && caller.token.scopes.contains(
            Scope::VouchersCreate,
        ) && caller.token.allows_site(site) && crate::upstream::id_fault(
            site,
            "site id"@,
        ) is None && is_within_ceilings(caller, body)
}

/// Whether a body that goes upstream asks for what a caller's ceilings allow.
pub open spec fn is_within_ceilings(caller: CallerView, body: JsonView) -> bool {
    exists|request: RequestView|
        body == JsonView::Object(#[trigger] crate::policy::upstream_members(request))
            && crate::policy::refusal(request, caller.ceilings) is None
}

/// A caller that lacks the scope or the site is refused for free: its quota and
/// everything else stay as they were, and nothing reaches the controller.
pub proof fn a_refused_attempt_is_free(
    before: LiveView,
    after: LiveView,
    caller: CallerView,
    action: Seq<char>,
    fault: Option<ErrorView>,
    plan: Result<AdmittedView, DeniedView>,
    ok: bool,
    r: Result<AdmittedView, DeniedView>,
)
    requires
        charged_for(before, after, caller, action, fault, plan, ok, r),
        fault is Some,
    ensures
        after == before,
        r is Err,
{
}

/// A body that is not acceptable still costs the caller its quota: of a caller
/// that may create vouchers, one unit is spent whatever the body says, and a
/// limited caller that is let through has one request more counted.
pub proof fn a_rejected_body_still_costs_the_quota(
    before: LiveView,
    after: LiveView,
    caller: CallerView,
    action: Seq<char>,
    site: Seq<char>,
    body: JsonView,
    ok: bool,
    r: Result<AdmittedView, DeniedView>,
)
    requires
        charged_for(
            before,
            after,
            caller,
            action,
            creation_fault(caller, site),
            creation_plan_from(before, caller, action, site, body),
            ok,
            r,
        ),
        creation_fault(caller, site) is None,
        crate::policy::request_in(body) is Err,
        before.rate.tokens.dom().contains(caller.token.name),
        r != Err::<AdmittedView, DeniedView>(refused(caller, action, ErrorView::RateLimited)),
    ensures
        r is Err,
        after.rate.tokens[caller.token.name].admitted
            == before.rate.tokens[caller.token.name].admitted + 1,
{
}

/// A voucher is created only within the caller's ceilings: whatever the client
/// sent, a creation that reaches the controller carries a request that the
/// ceilings allow, for a site the caller may use.
pub proof fn only_allowed_vouchers_are_created(
    before: LiveView,
    after: LiveView,
    caller: CallerView,
    action: Seq<char>,
    site: Seq<char>,
    body: JsonView,
    ok: bool,
    r: Result<AdmittedView, DeniedView>,
)
    requires
        charged_for(
            before,
            after,
            caller,
            action,
            creation_fault(caller, site),
            creation_plan_from(before, caller, action, site, body),
            ok,
            r,
        ),
        r is Ok,
        r->Ok_0.call is Ok,
    ensures
        caller.token.scopes.contains(Scope::VouchersCreate),
        caller.token.allows_site(site),
        crate::upstream::id_fault(site, "site id"@) is None,
        crate::policy::request_in(body) is Ok,
        ({
            let request = crate::policy::request_in(body)->Ok_0;
            &&& crate::policy::refusal(request, caller.ceilings) is None
            &&& r->Ok_0.call->Ok_0 == before.upstream.create_vouchers(
                site,
                JsonView::Object(crate::policy::upstream_members(request)),
            )
        }),
{
}

/// A caller that is granted an attempt, and is not limited or still within its
/// budget, has it carried out.
pub proof fn a_granted_attempt_within_the_budget_is_carried_out(
    before: LiveView,
    after: LiveView,
    caller: CallerView,
    action: Seq<char>,
    plan: Result<AdmittedView, DeniedView>,
    ok: bool,
    r: Result<AdmittedView, DeniedView>,
)
    requires
        charged_for(before, after, caller, action, None, plan, ok, r),
        before.rate.tokens.dom().contains(caller.token.name)
            ==> before.rate.tokens[caller.token.name].admitted
            < before.rate.tokens[caller.token.name].burst,
    ensures
        ok,
        r == plan,
        after == (LiveView { rate: after.rate, ..before }),
{
}

/// What is planned is what was asked for: the call for that very site and voucher,
/// which the audit log will tell of under the action. An id that is none keeps the
/// call from being made.
pub proof fn a_plan_is_for_what_was_asked(
    live: LiveView,
    action: Seq<char>,
    site: Seq<char>,
    voucher: Seq<char>,
)
    ensures
        sites_plan(live, action) == Ok::<AdmittedView, DeniedView>(
            AdmittedView {
                call: Ok(live.upstream.list_sites()),
                trail: TrailView { action, site: None, target: None, count: None },
            },
        ),
        ({
            let r = vouchers_plan(live, action, site);
            &&& r is Ok
            &&& r->Ok_0.trail == (TrailView { action, site: Some(site), target: None, count: None })
            &&& crate::upstream::is_id(site) ==> r->Ok_0.call == Ok::<CallView, ErrorView>(
                live.upstream.list_vouchers(site),
            )
            &&& !crate::upstream::is_id(site) ==> r->Ok_0.call is Err
                && r->Ok_0.call->Err_0.status() == 400
        }),
        ({
            let r = revocation_plan(live, action, site, voucher);
            &&& r is Ok
            &&& r->Ok_0.trail == (TrailView {
                action,
                site: Some(site),
                target: Some(voucher),
                count: None,
            })
            &&& crate::upstream::is_id(site) && crate::upstream::is_id(voucher) ==> r->Ok_0.call
                == Ok::<CallView, ErrorView>(live.upstream.delete_voucher(site, voucher))
            &&& !crate::upstream::is_id(site) || !crate::upstream::is_id(voucher)
                ==> r->Ok_0.call is Err && r->Ok_0.call->Err_0.status() == 400
        }),
{
    crate::upstream::lemma_ids(site, "site id"@);
    crate::upstream::lemma_ids(voucher, "voucher id"@);
}

/// A request that is acceptable and within the caller's ceilings is sent as it was
/// asked for, field by field, and its number is logged; one that is not acceptable is
/// a bad request, and one that is refused is not sent.
pub proof fn a_creation_is_sent_as_it_was_asked_for(
    live: LiveView,
    caller: CallerView,
    action: Seq<char>,
    site: Seq<char>,
    body: JsonView,
)
    ensures
        crate::policy::request_in(body) is Err ==> {
            let r = creation_plan_from(live, caller, action, site, body);
            r is Err && r->Err_0.error.status() == 400 && r->Err_0.audit.token == caller.token.name
                && r->Err_0.audit.action == action
        },
        crate::policy::request_in(body) matches Ok(request) ==> {
            let r = creation_plan_from(live, caller, action, site, body);
            &&& crate::policy::refusal(request, caller.ceilings) matches Some(e) ==> r is Err
                && r->Err_0.error == e && r->Err_0.audit.token == caller.token.name
                && r->Err_0.audit.outcome == e.kind() && r->Err_0.audit.status == e.status()
            &&& crate::policy::refusal(request, caller.ceilings) is None ==> {
                &&& r is Ok
                &&& r->Ok_0.trail == (TrailView {
                    action,
                    site: Some(site),
                    target: None,
                    count: Some(request.count),
                })
                &&& !crate::upstream::is_id(site) ==> r->Ok_0.call is Err
                &&& crate::upstream::is_id(site) ==> {
                    &&& r->Ok_0.call is Ok
                    &&& r->Ok_0.call->Ok_0.body is Some
                    &&& r->Ok_0.call->Ok_0 == live.upstream.create_vouchers(
                        site,
                        r->Ok_0.call->Ok_0.body->0,
                    )
                    &&& crate::policy::request_in(r->Ok_0.call->Ok_0.body->0) == Ok::<
                        RequestView,
                        Seq<char>,
                    >(request)
                }
            }
        },
{
    crate::upstream::lemma_ids(site, "site id"@);
    if let Ok(request) = crate::policy::request_in(body) {
        crate::policy::what_goes_upstream_reads_back(request);
    }
}

/// A caller that is granted an attempt but has no quota left is told to slow down,
/// nothing is planned for it, and the audit log has it under its name.
pub proof fn an_attempt_over_quota_is_refused(
    before: LiveView,
    after: LiveView,
    caller: CallerView,
    action: Seq<char>,
    plan: Result<AdmittedView, DeniedView>,
    r: Result<AdmittedView, DeniedView>,
)
    requires
        charged_for(before, after, caller, action, None, plan, false, r),
    ensures
        r is Err,
        r->Err_0.error.status() == 429,
        r->Err_0.audit.token == caller.token.name,
        r->Err_0.audit.action == action,
        r->Err_0.audit.outcome == "rate_limited"@,
        r->Err_0.audit.status == 429,
        after == before,
{
}

/// A caller that lacks the scope or the site is told that very fault, and the audit
/// log has it under the caller's name and the action, with the kind and the status of
/// the fault.
pub proof fn a_refusal_is_told_and_logged(
    before: LiveView,
    after: LiveView,
    caller: CallerView,
    action: Seq<char>,
    e: ErrorView,
    plan: Result<AdmittedView, DeniedView>,
    ok: bool,
    r: Result<AdmittedView, DeniedView>,
)
    requires
        charged_for(before, after, caller, action, Some(e), plan, ok, r),
    ensures
        r is Err,
        r->Err_0.error == e,
        r->Err_0.audit.token == caller.token.name,
        r->Err_0.audit.action == action,
        r->Err_0.audit.outcome == e.kind(),
        r->Err_0.audit.status == e.status(),
{
}

} // verus!
