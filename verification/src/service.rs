//! What the proxy does with a request, step by step.
//!
//! A request is begun, which either answers it at once or says what is needed
//! next: a call to the controller, the request's body, or the GraphQL engine.

use vstd::prelude::*;
use vstd::string::*;

use crate::audit::{rejected_token, AuditEvent, EventView};
use crate::auth::{Challenge, ChallengeView, HeaderView, Verdicts};
use crate::config::Scope;
use crate::error::{ErrorView, ProxyError, ProxyResult};
use crate::json::{Json, JsonView};
use crate::moment::{Timestamp, TimestampView};
use crate::operations::{self, Admitted, AdmittedView, Denied, DeniedView};
use crate::routes::{self, PathFault, Route, RouteView};
use crate::state::{AppState, Caller, CallerView, LiveView, Refusal, RequestParts, StateView};
use crate::upstream::{receive, Reply, ReplyView, Warning, WarningView};

verus! {

/// The body of an answer.
#[derive(Debug)]
pub enum Body {
    Json(Json),
    Text(String),
}

/// The body of an answer, as the contracts speak of it.
pub ghost enum BodyView {
    Json(JsonView),
    Text(Seq<char>),
}

impl View for Body {
    type V = BodyView;

    open spec fn view(&self) -> BodyView {
        match self {
            Body::Json(v) => BodyView::Json(v@),
            Body::Text(s) => BodyView::Text(s@),
        }
    }
}

/// What a client is answered, and what the audit log is told of it.
#[derive(Debug)]
pub struct Answer {
    pub status: u16,
    pub body: Body,
    pub audit: Option<AuditEvent>,
}

/// An answer as the contracts speak of it.
pub ghost struct AnswerView {
    pub status: u16,
    pub body: BodyView,
    pub audit: Option<EventView>,
}

impl View for Answer {
    type V = AnswerView;

    open spec fn view(&self) -> AnswerView {
        AnswerView {
            status: self.status,
            body: self.body@,
            audit: crate::audit::event_option(self.audit),
        }
    }
}

/// An operation that waits for the controller.
pub struct Pending {
    pub caller: Caller,
    pub op: Admitted,
    /// Whether the answer is a list of sites, of which the caller sees its own.
    pub filter: bool,
}

/// Such an operation as the contracts speak of it.
pub ghost struct PendingView {
    pub caller: CallerView,
    pub op: AdmittedView,
    pub filter: bool,
}

impl View for Pending {
    type V = PendingView;

    open spec fn view(&self) -> PendingView {
        PendingView { caller: self.caller@, op: self.op@, filter: self.filter }
    }
}

/// A creation of vouchers that was permitted and paid for, whose request is still
/// to be read.
pub struct Creation {
    caller: Caller,
    site: String,
}

/// Such a creation as the contracts speak of it.
pub ghost struct CreationView {
    pub caller: CallerView,
    pub site: Seq<char>,
}

impl View for Creation {
    type V = CreationView;

    closed spec fn view(&self) -> CreationView {
        CreationView { caller: self.caller@, site: self.site@ }
    }
}

impl Creation {
    #[verifier::type_invariant]
    spec fn well_formed(self) -> bool {
        operations::creation_fault(self.caller@, self.site@) is None
    }

    /// What the audit log is told where the body of the request cannot be read,
    /// and is answered with `status`.
    pub fn unread(&self, status: u16) -> (r: AuditEvent)
        ensures
            r@ == EventView::Rejected(
                crate::audit::rejection_of(
                    self@.caller.token.name,
                    "vouchers:create"@,
                    "bad_request"@,
                    status,
                ),
            ),
    {
        AuditEvent::Rejected(
            rejected_token(self.caller.name(), "vouchers:create", "bad_request", status),
        )
    }
}

/// What to do next about a request.
pub enum Step {
    /// Answer it.
    Answer(Answer),
    /// Make the operation's call, where it has one, and [`complete`] it.
    Operate(Pending),
    /// Read its body, and [`create`] what it describes.
    ReadBody(Creation),
    /// Run its document.
    Graphql(Caller),
    /// Show the schema.
    GraphqlSchema,
    /// Show the explorer.
    Playground,
}

/// A step as the contracts speak of it.
pub ghost enum StepView {
    Answer(AnswerView),
    Operate(PendingView),
    ReadBody(CreationView),
    Graphql(CallerView),
    GraphqlSchema,
    Playground,
}

impl View for Step {
    type V = StepView;

    open spec fn view(&self) -> StepView {
        match self {
            Step::Answer(a) => StepView::Answer(a@),
            Step::Operate(p) => StepView::Operate(p@),
            Step::ReadBody(creation) => StepView::ReadBody(creation@),
            Step::Graphql(caller) => StepView::Graphql(caller@),
            Step::GraphqlSchema => StepView::GraphqlSchema,
            Step::Playground => StepView::Playground,
        }
    }
}

/// A request, without its body.
pub struct Request {
    pub method: String,
    pub parts: RequestParts,
}

/// A request as the contracts speak of it.
pub ghost struct HeadView {
    pub method: Seq<char>,
    pub path: Seq<char>,
    pub headers: Seq<HeaderView>,
    pub peer: Option<Seq<u8>>,
}

impl View for Request {
    type V = HeadView;

    open spec fn view(&self) -> HeadView {
        HeadView {
            method: self.method@,
            path: self.parts.path@,
            headers: crate::auth::header_views(self.parts.headers@),
            peer: crate::state::peer_view(self.parts.peer),
        }
    }
}

// ---------------------------------------------------------------------------
// Answers
// ---------------------------------------------------------------------------

/// How an error is answered.
pub open spec fn error_answer(e: ErrorView, audit: Option<EventView>) -> AnswerView {
    AnswerView { status: e.status(), body: BodyView::Json(e.envelope()), audit }
}

/// How a caller is answered that asked for something by a path whose parameter is
/// no text.
pub open spec fn path_answer(caller: CallerView, action: Seq<char>, key: Seq<char>) -> AnswerView {
    AnswerView {
        status: 400,
        body: BodyView::Text("Invalid URL: Invalid UTF-8 in `"@ + key + "`"@),
        audit: Some(
            EventView::Rejected(
                crate::audit::rejection_of(caller.token.name, action, "bad_request"@, 400),
            ),
        ),
    }
}

/// How a success is answered.
pub open spec fn success(v: JsonView, audit: Option<EventView>) -> AnswerView {
    AnswerView { status: 200, body: BodyView::Json(v), audit }
}

fn answer_error(e: &ProxyError, audit: Option<AuditEvent>) -> (r: Answer)
    ensures
        r@ == error_answer(e@, crate::audit::event_option(audit)),
{
    let response = e.into_response();
    Answer { status: response.status, body: Body::Json(response.body), audit }
}

fn answer_path(fault: PathFault, caller: &Caller, action: &str) -> (r: Answer)
    ensures
        r@ == (AnswerView {
            status: 400,
            body: BodyView::Text(fault.message@),
            audit: Some(
                EventView::Rejected(
                    crate::audit::rejection_of(caller@.token.name, action@, "bad_request"@, 400),
                ),
            ),
        }),
{
    let entry = rejected_token(caller.name(), action, "bad_request", 400);
    Answer {
        status: 400,
        body: Body::Text(fault.message),
        audit: Some(AuditEvent::Rejected(entry)),
    }
}

fn answer_success(v: Json, audit: Option<AuditEvent>) -> (r: Answer)
    ensures
        r@ == success(v@, crate::audit::event_option(audit)),
{
    Answer { status: 200, body: Body::Json(v), audit }
}

fn answer_refusal(refusal: Refusal) -> (r: Answer)
    ensures
        r@ == error_answer(refusal@.error, Some(EventView::Rejected(refusal@.audit))),
{
    answer_error(&refusal.error, Some(AuditEvent::Rejected(refusal.audit)))
}

/// How an operation that was refused is answered.
pub open spec fn denial(denied: DeniedView) -> AnswerView {
    error_answer(denied.error, Some(EventView::Rejected(denied.audit)))
}

fn answer_denial(denied: Denied) -> (r: Answer)
    ensures
        r@ == denial(denied@),
{
    answer_error(&denied.error, Some(AuditEvent::Rejected(denied.audit)))
}

/// What to do next about an operation that was let through or refused.
pub open spec fn dispatched(
    caller: CallerView,
    admission: Result<AdmittedView, DeniedView>,
    filter: bool,
) -> StepView {
    match admission {
        Ok(op) => StepView::Operate(PendingView { caller, op, filter }),
        Err(denied) => StepView::Answer(denial(denied)),
    }
}

fn dispatch(caller: Caller, admission: Result<Admitted, Denied>, filter: bool) -> (r: Step)
    ensures
        r@ == dispatched(caller@, operations::admission(admission), filter),
{
    match admission {
        Ok(op) => Step::Operate(Pending { caller, op, filter }),
        Err(denied) => Step::Answer(answer_denial(denied)),
    }
}

// ---------------------------------------------------------------------------
// Beginning
// ---------------------------------------------------------------------------

/// What asking for an operation may come to. `ok` is whether the caller had a
/// unit of its quota left.
pub open spec fn operated(
    before: StateView,
    after: StateView,
    caller: CallerView,
    action: Seq<char>,
    fault: Option<ErrorView>,
    plan: Result<AdmittedView, DeniedView>,
    filter: bool,
    ok: bool,
    step: StepView,
) -> bool {
    &&& after == (StateView { live: after.live, ..before })
    &&& exists|r: Result<AdmittedView, DeniedView>|
        #[trigger] operations::charged_for(
            before.live,
            after.live,
            caller,
            action,
            fault,
            plan,
            ok,
            r,
        ) && step == dispatched(caller, r, filter)
}

/// What asking for a creation of vouchers may come to. The request is read only
/// where the caller may create vouchers on the site and has paid for it.
pub open spec fn creation_begun(
    before: StateView,
    after: StateView,
    caller: CallerView,
    site: Seq<char>,
    ok: bool,
    step: StepView,
) -> bool {
    &&& after == (StateView { live: after.live, ..before })
    &&& exists|r: Result<(), DeniedView>|
        #[trigger] operations::permitted(
            before.live,
            after.live,
            caller,
            site,
            "vouchers:create"@,
            ok,
            r,
        ) && step == (match r {
            Ok(_) => StepView::ReadBody(CreationView { caller, site }),
            Err(denied) => StepView::Answer(denial(denied)),
        })
}

/// What a request of a known caller may come to.
pub open spec fn handled(
    before: StateView,
    after: StateView,
    route: RouteView,
    caller: CallerView,
    version: Seq<char>,
    ok: bool,
    step: StepView,
) -> bool {
    match route {
        RouteView::Info => after == before && step == StepView::Answer(
            success(JsonView::Object(routes::info_members(caller, version)), None),
        ),
        RouteView::GraphqlSchema => after == before && step == StepView::GraphqlSchema,
        RouteView::Graphql => after == before && step == StepView::Graphql(caller),
        RouteView::ListSites => operated(
            before,
            after,
            caller,
            "sites:list"@,
            caller.scope_fault(Scope::SitesRead),
            operations::sites_plan(before.live, "sites:list"@),
            true,
            ok,
            step,
        ),
        RouteView::ListVouchers { site } => match routes::segment_text(site) {
            None => after == before && step == StepView::Answer(
                path_answer(caller, "vouchers:list"@, "site"@),
            ),
            Some(site) => operated(
                before,
                after,
                caller,
                "vouchers:list"@,
                operations::first_fault(
                    caller.scope_fault(Scope::VouchersRead),
                    caller.site_fault(site),
                ),
                operations::vouchers_plan(before.live, "vouchers:list"@, site),
                false,
                ok,
                step,
            ),
        },
        RouteView::CreateVouchers { site } => match routes::segment_text(site) {
            None => after == before && step == StepView::Answer(
                path_answer(caller, "vouchers:create"@, "site"@),
            ),
            Some(site) => creation_begun(before, after, caller, site, ok, step),
        },
        RouteView::DeleteVoucher { site, voucher } => match routes::segment_text(site) {
            None => after == before && step == StepView::Answer(
                path_answer(caller, "vouchers:revoke"@, "site"@),
            ),
            Some(site) => match routes::segment_text(voucher) {
                None => after == before && step == StepView::Answer(
                    path_answer(caller, "vouchers:revoke"@, "voucher"@),
                ),
                Some(voucher) => operated(
                    before,
                    after,
                    caller,
                    "vouchers:revoke"@,
                    operations::first_fault(
                        caller.scope_fault(Scope::VouchersRevoke),
                        caller.site_fault(site),
                    ),
                    operations::revocation_plan(before.live, "vouchers:revoke"@, site, voucher),
                    false,
                    ok,
                    step,
                ),
            },
        },
        RouteView::Healthz | RouteView::Playground | RouteView::NotAllowed => false,
    }
}

/// Whether a route is served without asking who is calling.
pub open spec fn is_open(route: RouteView) -> bool {
    route is Healthz || route is Playground || route is NotAllowed
}

/// What a request that is served to anyone comes to.
pub open spec fn openly(head: HeadView, route: RouteView) -> StepView {
    match route {
        RouteView::Healthz => StepView::Answer(
            success(
                JsonView::Object(
                    seq![
                        ("service"@, JsonView::Text("unifi-voucher-proxy"@)),
                        ("status"@, JsonView::Text("ok"@)),
                    ],
                ),
                None,
            ),
        ),
        RouteView::Playground => StepView::Playground,
        _ => StepView::Answer(
            error_answer(
                ErrorView::NotAllowed,
                Some(
                    EventView::Rejected(
                        crate::audit::rejection(head.path, "blocked_"@ + head.method, 403),
                    ),
                ),
            ),
        ),
    }
}

/// What beginning a request may come to. `ip_ok` is whether its source still had
/// a budget, `ok` whether its caller had; `known` is the proxy once it has told
/// who is calling.
pub open spec fn began(
    before: StateView,
    known: StateView,
    after: StateView,
    head: HeadView,
    playground: bool,
    version: Seq<char>,
    now: TimestampView,
    ip_ok: bool,
    ok: bool,
    step: StepView,
) -> bool {
    let route = routes::route_for(head.method, head.path, playground);
    if is_open(route) {
        after == before && step == openly(head, route)
    } else {
        let verdict = before.live.verdict(head.path, head.headers, ip_ok, now);
        &&& crate::state::resolved(
            before,
            known,
            head.path,
            head.headers,
            head.peer,
            now,
            ip_ok,
            verdict,
        )
        &&& match verdict {
            Err(refusal) => after == known && step == StepView::Answer(
                error_answer(refusal.error, Some(EventView::Rejected(refusal.audit))),
            ),
            Ok(caller) => handled(known, after, route, caller, version, ok, step),
        }
    }
}

/// What beginning a request may come to, whatever became of the budgets.
pub open spec fn may_begin(
    before: StateView,
    after: StateView,
    head: HeadView,
    playground: bool,
    version: Seq<char>,
    now: TimestampView,
    step: StepView,
) -> bool {
    exists|known: StateView, ip_ok: bool, ok: bool|
        began(before, known, after, head, playground, version, now, ip_ok, ok, step)
}

fn handle(state: &mut AppState, route: Route, caller: Caller, version: &str) -> (r: Step)
    requires
        !is_open(route@),
    ensures
        exists|ok: bool| handled(old(state)@, final(state)@, route@, caller@, version@, ok, r@),
{
    let ghost before = state@;
    let ghost who = caller@;
    let ghost asked = route@;
    match route {
        Route::Info => {
            let step = Step::Answer(answer_success(routes::info(&caller, version), None));
            assert(handled(before, state@, asked, who, version@, true, step@));
            step
        },
        Route::GraphqlSchema => {
            let step = Step::GraphqlSchema;
            assert(handled(before, state@, asked, who, version@, true, step@));
            step
        },
        Route::Graphql => {
            let step = Step::Graphql(caller);
            assert(handled(before, state@, asked, who, version@, true, step@));
            step
        },
        Route::ListSites => {
            let admission = routes::list_sites(state.live_mut(), &caller);
            let ghost r = operations::admission(admission);
            let ghost ok = choose|ok: bool|
                operations::charged_for(
                    before.live,
                    state@.live,
                    who,
                    "sites:list"@,
                    who.scope_fault(Scope::SitesRead),
                    operations::sites_plan(before.live, "sites:list"@),
                    ok,
                    r,
                );
            let step = dispatch(caller, admission, true);
            assert(handled(before, state@, asked, who, version@, ok, step@));
            step
        },
        Route::ListVouchers { site } => {
            let site = match routes::decode_segment(site.as_str(), "site") {
                Ok(site) => site,
                Err(fault) => {
                    let step = Step::Answer(answer_path(fault, &caller, "vouchers:list"));
                    assert(handled(before, state@, asked, who, version@, true, step@));
                    return step;
                },
            };
            let admission = routes::list_vouchers(state.live_mut(), &caller, site.as_str());
            let ghost r = operations::admission(admission);
            let ghost ok = choose|ok: bool|
                operations::charged_for(
                    before.live,
                    state@.live,
                    who,
                    "vouchers:list"@,
                    operations::first_fault(
                        who.scope_fault(Scope::VouchersRead),
                        who.site_fault(site@),
                    ),
                    operations::vouchers_plan(before.live, "vouchers:list"@, site@),
                    ok,
                    r,
                );
            let step = dispatch(caller, admission, false);
            assert(handled(before, state@, asked, who, version@, ok, step@));
            step
        },
        Route::CreateVouchers { site } => {
            let site = match routes::decode_segment(site.as_str(), "site") {
                Ok(site) => site,
                Err(fault) => {
                    let step = Step::Answer(answer_path(fault, &caller, "vouchers:create"));
                    assert(handled(before, state@, asked, who, version@, true, step@));
                    return step;
                },
            };
            let permit = operations::permit_creation(
                state.live_mut(),
                &caller,
                site.as_str(),
                "vouchers:create",
            );
            let ghost r = operations::permission(permit);
            let ghost ok = choose|ok: bool|
                operations::permitted(
                    before.live,
                    state@.live,
                    who,
                    site@,
                    "vouchers:create"@,
                    ok,
                    r,
                );
            let step = match permit {
                Ok(_) => Step::ReadBody(Creation { caller, site }),
                Err(denied) => Step::Answer(answer_denial(denied)),
            };
            assert(handled(before, state@, asked, who, version@, ok, step@));
            step
        },
        Route::DeleteVoucher { site, voucher } => {
            let site = match routes::decode_segment(site.as_str(), "site") {
                Ok(site) => site,
                Err(fault) => {
                    let step = Step::Answer(answer_path(fault, &caller, "vouchers:revoke"));
                    assert(handled(before, state@, asked, who, version@, true, step@));
                    return step;
                },
            };
            let voucher = match routes::decode_segment(voucher.as_str(), "voucher") {
                Ok(voucher) => voucher,
                Err(fault) => {
                    let step = Step::Answer(answer_path(fault, &caller, "vouchers:revoke"));
                    assert(handled(before, state@, asked, who, version@, true, step@));
                    return step;
                },
            };
            let admission = routes::delete_voucher(
                state.live_mut(),
                &caller,
                site.as_str(),
                voucher.as_str(),
            );
            let ghost r = operations::admission(admission);
            let ghost ok = choose|ok: bool|
                operations::charged_for(
                    before.live,
                    state@.live,
                    who,
                    "vouchers:revoke"@,
                    operations::first_fault(
                        who.scope_fault(Scope::VouchersRevoke),
                        who.site_fault(site@),
                    ),
                    operations::revocation_plan(before.live, "vouchers:revoke"@, site@, voucher@),
                    ok,
                    r,
                );
            let step = dispatch(caller, admission, false);
            assert(handled(before, state@, asked, who, version@, ok, step@));
            step
        },
        _ => Step::GraphqlSchema,
    }
}

/// Whether a route is served without asking who is calling.
fn opens(route: &Route) -> (r: bool)
    ensures
        r == is_open(route@),
{
    match route {
        Route::Healthz => true,
        Route::Playground => true,
        Route::NotAllowed => true,
        _ => false,
    }
}

/// What admitting a request may come to: its source is charged, unless it asks for
/// something that is served to anyone. `ip_ok` is whether it still had a budget.
pub open spec fn admitted(
    before: StateView,
    after: StateView,
    head: HeadView,
    playground: bool,
    ip_ok: bool,
) -> bool {
    if is_open(routes::route_for(head.method, head.path, playground)) {
        after == before && ip_ok
    } else {
        crate::state::source_charged(before, after, head.peer, ip_ok)
    }
}

/// What going on with a request may come to, where `ip_ok` is whether its source
/// still had a budget. See [`began`] for the rest.
pub open spec fn proceeded(
    before: StateView,
    known: StateView,
    after: StateView,
    head: HeadView,
    playground: bool,
    version: Seq<char>,
    now: TimestampView,
    ip_ok: bool,
    ok: bool,
    step: StepView,
) -> bool {
    let route = routes::route_for(head.method, head.path, playground);
    if is_open(route) {
        after == before && step == openly(head, route)
    } else {
        &&& before.identified(known, head.path, head.headers, ip_ok, now)
        &&& known.live.rate == before.live.rate
        &&& match before.live.verdict(head.path, head.headers, ip_ok, now) {
            Err(refusal) => after == known && step == StepView::Answer(
                error_answer(refusal.error, Some(EventView::Rejected(refusal.audit))),
            ),
            Ok(caller) => handled(known, after, route, caller, version, ok, step),
        }
    }
}

/// What going on with a request may come to, whatever became of its caller's
/// budget.
pub open spec fn may_proceed(
    before: StateView,
    after: StateView,
    head: HeadView,
    playground: bool,
    version: Seq<char>,
    now: TimestampView,
    ip_ok: bool,
    step: StepView,
) -> bool {
    exists|known: StateView, ok: bool|
        proceeded(before, known, after, head, playground, version, now, ip_ok, ok, step)
}

/// A request whose source was charged.
pub struct Admission {
    /// Whether the source still had a budget.
    pub ip_ok: bool,
    /// What the token that the request presents has to be checked against.
    pub challenge: Challenge,
}

fn charge(state: &mut AppState, request: &Request, route: &Route) -> (r: bool)
    ensures
        is_open(route@) ==> r && final(state)@ == old(state)@,
        !is_open(route@) ==> crate::state::source_charged(
            old(state)@,
            final(state)@,
            request@.peer,
            r,
        ),
{
    if opens(route) {
        true
    } else {
        state.charge_source(&request.parts)
    }
}

/// Lets a request in: charges its source, and says what its token has to be checked
/// against. Those checks are slow, and nothing here has to wait for them:
/// [`proceed`] takes what came of them.
pub fn let_in(state: &mut AppState, request: &Request, playground: bool) -> (r: Admission)
    ensures
        admitted(old(state)@, final(state)@, request@, playground, r.ip_ok),
        r.challenge@ == (if r.ip_ok && !is_open(
            routes::route_for(request@.method, request@.path, playground),
        ) {
            old(state)@.live.challenge(request@.headers)
        } else {
            ChallengeView { presented: seq![], hashes: seq![] }
        }),
{
    let route = routes::router_with(
        request.method.as_str(),
        request.parts.path.as_str(),
        playground,
    );
    let ip_ok = charge(state, request, &route);
    if ip_ok && !opens(&route) {
        Admission { ip_ok, challenge: state.challenge(&request.parts) }
    } else {
        proof {
            reveal_strlit("");
            assert(""@ =~= seq![]);
        }
        Admission { ip_ok, challenge: Challenge::idle("") }
    }
}

/// Goes on with a request that was admitted: tells who is calling, and what to do
/// next about it. What is not known of the token yet is checked here.
pub fn proceed(
    state: &mut AppState,
    request: &Request,
    playground: bool,
    version: &str,
    now: &Timestamp,
    ip_ok: bool,
    known: &Verdicts,
) -> (r: Step)
    ensures
        may_proceed(
            old(state)@,
            final(state)@,
            request@,
            playground,
            version@,
            now@,
            ip_ok,
            r@,
        ),
{
    let ghost before = state@;
    let route = routes::router_with(
        request.method.as_str(),
        request.parts.path.as_str(),
        playground,
    );
    let ghost asked = route@;
    match route {
        Route::Healthz => {
            let step = Step::Answer(answer_success(routes::healthz(), None));
            assert(proceeded(
                before,
                before,
                state@,
                request@,
                playground,
                version@,
                now@,
                ip_ok,
                true,
                step@,
            ));
            return step;
        },
        Route::Playground => {
            let step = Step::Playground;
            assert(proceeded(
                before,
                before,
                state@,
                request@,
                playground,
                version@,
                now@,
                ip_ok,
                true,
                step@,
            ));
            return step;
        },
        Route::NotAllowed => {
            let (error, entry) = routes::not_allowed(
                request.method.as_str(),
                request.parts.path.as_str(),
            );
            let step = Step::Answer(answer_error(&error, Some(AuditEvent::Rejected(entry))));
            assert(proceeded(
                before,
                before,
                state@,
                request@,
                playground,
                version@,
                now@,
                ip_ok,
                true,
                step@,
            ));
            return step;
        },
        _ => {},
    }
    let resolved = Caller::identify(&request.parts, state, ip_ok, known, now);
    let ghost identified = state@;
    match resolved {
        Err(refusal) => {
            let step = Step::Answer(answer_refusal(refusal));
            assert(proceeded(
                before,
                identified,
                state@,
                request@,
                playground,
                version@,
                now@,
                ip_ok,
                true,
                step@,
            ));
            step
        },
        Ok(caller) => {
            let ghost who = caller@;
            let step = handle(state, route, caller, version);
            let ghost ok = choose|ok: bool|
                handled(identified, state@, asked, who, version@, ok, step@);
            assert(proceeded(
                before,
                identified,
                state@,
                request@,
                playground,
                version@,
                now@,
                ip_ok,
                ok,
                step@,
            ));
            step
        },
    }
}

/// Admitting a request and going on with it at once is beginning it.
pub proof fn admitting_and_proceeding_is_beginning(
    before: StateView,
    middle: StateView,
    after: StateView,
    head: HeadView,
    playground: bool,
    version: Seq<char>,
    now: TimestampView,
    ip_ok: bool,
    step: StepView,
)
    requires
        admitted(before, middle, head, playground, ip_ok),
        may_proceed(middle, after, head, playground, version, now, ip_ok, step),
    ensures
        may_begin(before, after, head, playground, version, now, step),
{
    let (known, ok) = choose|known: StateView, ok: bool|
        proceeded(middle, known, after, head, playground, version, now, ip_ok, ok, step);
    assert(middle.live.verdict(head.path, head.headers, ip_ok, now) == before.live.verdict(
        head.path,
        head.headers,
        ip_ok,
        now,
    ));
    assert(middle.live.auth_after(head.headers, ip_ok) == before.live.auth_after(
        head.headers,
        ip_ok,
    ));
    assert(began(before, known, after, head, playground, version, now, ip_ok, ok, step));
}

/// Whatever happened in between, a request that was admitted goes on as one of an
/// unknown source would that begins just then. So what holds of beginning a request
/// holds of going on with it.
pub proof fn an_admitted_request_goes_on_as_if_it_began_then(
    before: StateView,
    after: StateView,
    head: HeadView,
    playground: bool,
    version: Seq<char>,
    now: TimestampView,
    step: StepView,
)
    requires
        may_proceed(before, after, head, playground, version, now, true, step),
    ensures
        may_begin(before, after, HeadView { peer: None, ..head }, playground, version, now, step),
{
    let (known, ok) = choose|known: StateView, ok: bool|
        proceeded(before, known, after, head, playground, version, now, true, ok, step);
    let unknown = HeadView { peer: None, ..head };
    assert(openly(unknown, routes::route_for(head.method, head.path, playground)) == openly(
        head,
        routes::route_for(head.method, head.path, playground),
    ));
    assert(began(before, known, after, unknown, playground, version, now, true, ok, step));
}

/// Begins a request: tells what it asks for and who is calling, and what to do
/// next about it.
pub fn begin(
    state: &mut AppState,
    request: &Request,
    playground: bool,
    version: &str,
    now: &Timestamp,
) -> (r: Step)
    ensures
        may_begin(
            old(state)@,
            final(state)@,
            request@,
            playground,
            version@,
            now@,
            r@,
        ),
{
    let ghost before = state@;
    let route = routes::router_with(
        request.method.as_str(),
        request.parts.path.as_str(),
        playground,
    );
    let ip_ok = charge(state, request, &route);
    let ghost middle = state@;
    let step = proceed(state, request, playground, version, now, ip_ok, &Verdicts::none());
    proof {
        admitting_and_proceeding_is_beginning(
            before,
            middle,
            state@,
            request@,
            playground,
            version@,
            now@,
            ip_ok,
            step@,
        );
    }
    step
}

/// What a creation comes to, once its request was read.
pub open spec fn created(live: LiveView, creation: CreationView, body: JsonView) -> StepView {
    dispatched(
        creation.caller,
        operations::creation_plan_from(
            live,
            creation.caller,
            "vouchers:create"@,
            creation.site,
            body,
        ),
        false,
    )
}

/// Goes on with a creation of vouchers, once the body of the request was read.
pub fn create(state: &AppState, creation: Creation, body: &Json) -> (r: Step)
    ensures
        operations::creation_fault(creation@.caller, creation@.site) is None,
        r@ == created(state@.live, creation@, body@),
{
    proof {
        use_type_invariant(&creation);
    }
    let Creation { caller, site } = creation;
    let admission = operations::plan_creation_from(
        state.live(),
        &caller,
        site.as_str(),
        "vouchers:create",
        body,
    );
    dispatch(caller, admission, false)
}

// ---------------------------------------------------------------------------
// Completing
// ---------------------------------------------------------------------------

/// What came of a call, as the contracts speak of it.
pub open spec fn reply_option(reply: Option<Reply>) -> Option<ReplyView> {
    match reply {
        Some(r) => Some(r@),
        None => None,
    }
}

impl PendingView {
    /// What the operation comes to, where `reply` is what came of its call.
    pub open spec fn result(self, reply: Option<ReplyView>) -> Result<JsonView, ErrorView> {
        let got = match self.op.call {
            Err(e) => Err(e),
            Ok(_) => match reply {
                Some(reply) => reply.received(),
                None => Err(ErrorView::UpstreamUnreachable("request failed"@)),
            },
        };
        match got {
            Ok(v) => Ok(
                if self.filter {
                    routes::filtered(self.caller, v)
                } else {
                    v
                },
            ),
            Err(e) => Err(e),
        }
    }

    /// How the operation is answered.
    pub open spec fn answer(self, reply: Option<ReplyView>, elapsed: u128) -> AnswerView {
        let result = self.result(reply);
        let line = routes::completion(self.caller, self.op.trail, elapsed, result).line();
        match result {
            Ok(v) => success(v, Some(EventView::Request(line))),
            Err(e) => error_answer(e, Some(EventView::Request(line))),
        }
    }

    /// What the operator's log is told of the reply.
    pub open spec fn warning(self, reply: Option<ReplyView>) -> Option<WarningView> {
        match (self.op.call, reply) {
            (Ok(_), Some(reply)) => reply.warning(),
            _ => None,
        }
    }
}

/// Completes an operation that took `elapsed` nanoseconds, where `reply` is what
/// came of its call.
pub fn complete(pending: Pending, reply: Option<Reply>, elapsed: u128) -> (r: (
    Answer,
    Option<Warning>,
))
    ensures
        r.0@ == pending@.answer(reply_option(reply), elapsed),
        crate::upstream::warning_view(r.1) == pending@.warning(reply_option(reply)),
{
    let Pending { caller, op, filter } = pending;
    let (got, warning): (ProxyResult<Json>, Option<Warning>) = match op.call {
        Err(e) => (Err(e), None),
        Ok(_) => match reply {
            Some(reply) => receive(reply),
            None => (Err(ProxyError::UpstreamUnreachable("request failed".to_owned())), None),
        },
    };
    let result: ProxyResult<Json> = match got {
        Ok(v) => if filter {
            Ok(routes::filter_sites(v, &caller))
        } else {
            Ok(v)
        },
        Err(e) => Err(e),
    };
    let (line, result) = routes::finish(&caller, op.trail, elapsed, result);
    let audit = Some(AuditEvent::Request(line));
    match result {
        Ok(v) => (answer_success(v, audit), warning),
        Err(e) => (answer_error(&e, audit), warning),
    }
}

// ---------------------------------------------------------------------------
// What holds of requests
// ---------------------------------------------------------------------------

/// Every path that is not served answers 403, changes nothing and produces no
/// traffic to the controller.
pub proof fn an_unserved_request_is_refused(
    before: StateView,
    after: StateView,
    head: HeadView,
    playground: bool,
    version: Seq<char>,
    now: TimestampView,
    step: StepView,
)
    requires
        may_begin(before, after, head, playground, version, now, step),
        routes::route_for(head.method, head.path, playground) is NotAllowed,
    ensures
        after == before,
        step matches StepView::Answer(answer) && answer.status == 403,
{
}

/// Whatever a request makes the proxy ask of the controller was granted to the
/// token that it presented.
pub proof fn only_granted_calls_reach_the_controller(
    before: StateView,
    after: StateView,
    head: HeadView,
    playground: bool,
    version: Seq<char>,
    now: TimestampView,
    pending: PendingView,
)
    requires
        may_begin(before, after, head, playground, version, now, StepView::Operate(pending)),
        pending.op.call is Ok,
    ensures
        operations::is_granted(before.live.upstream, pending.caller, pending.op.call->Ok_0),
        crate::auth::presented_token(head.headers) is Some,
        before.live.auth.lookup(crate::auth::presented_token(head.headers)->0) matches Some(k)
            && pending.caller.token == before.live.auth.tokens[k as int],
        !pending.caller.token.expired_at(now),
{
    let step = StepView::Operate(pending);
    let (known, ip_ok, ok) = choose|known: StateView, ip_ok: bool, ok: bool|
        began(before, known, after, head, playground, version, now, ip_ok, ok, step);
    let route = routes::route_for(head.method, head.path, playground);
    let verdict = before.live.verdict(head.path, head.headers, ip_ok, now);
    let upstream = before.live.upstream;
    assert(known.live.upstream == upstream);
    let caller = verdict->Ok_0;
    assert(handled(known, after, route, caller, version, ok, step));
    let call = pending.op.call->Ok_0;
    match route {
        RouteView::ListSites => {
            assert(call == upstream.list_sites());
        },
        RouteView::ListVouchers { site } => {
            let site = routes::segment_text(site)->0;
            assert(call == upstream.list_vouchers(site));
        },
        RouteView::DeleteVoucher { site, voucher } => {
            let site = routes::segment_text(site)->0;
            let voucher = routes::segment_text(voucher)->0;
            assert(call == upstream.delete_voucher(site, voucher));
        },
        _ => {},
    }
}

/// The body of a request is read only where its caller may create vouchers on the
/// site, and only once a unit of its quota was spent on it.
pub proof fn a_body_is_read_only_once_it_is_paid_for(
    before: StateView,
    after: StateView,
    head: HeadView,
    playground: bool,
    version: Seq<char>,
    now: TimestampView,
    creation: CreationView,
)
    requires
        may_begin(before, after, head, playground, version, now, StepView::ReadBody(creation)),
    ensures
        operations::creation_fault(creation.caller, creation.site) is None,
        exists|known: StateView|
            known.live.upstream == before.live.upstream && #[trigger] known.live.rate.token_spent(
                after.live.rate,
                creation.caller.token.name,
                true,
            ),
        after.live.upstream == before.live.upstream,
        crate::auth::presented_token(head.headers) is Some,
        before.live.auth.lookup(crate::auth::presented_token(head.headers)->0) matches Some(k)
            && creation.caller.token == before.live.auth.tokens[k as int],
        !creation.caller.token.expired_at(now),
{
    let step = StepView::ReadBody(creation);
    let (known, ip_ok, ok) = choose|known: StateView, ip_ok: bool, ok: bool|
        began(before, known, after, head, playground, version, now, ip_ok, ok, step);
    let route = routes::route_for(head.method, head.path, playground);
    let verdict = before.live.verdict(head.path, head.headers, ip_ok, now);
    let caller = verdict->Ok_0;
    assert(handled(known, after, route, caller, version, ok, step));
    assert(known.live.upstream == before.live.upstream);
    assert(known.live.rate.token_spent(after.live.rate, creation.caller.token.name, true));
}

/// Whatever a permitted creation makes the proxy ask of the controller was granted
/// to its caller, whatever the client sent.
pub proof fn only_granted_creations_reach_the_controller(
    live: LiveView,
    creation: CreationView,
    body: JsonView,
    pending: PendingView,
)
    requires
        operations::creation_fault(creation.caller, creation.site) is None,
        created(live, creation, body) == StepView::Operate(pending),
        pending.op.call is Ok,
    ensures
        pending.caller == creation.caller,
        operations::is_granted(live.upstream, creation.caller, pending.op.call->Ok_0),
{
    let request = crate::policy::request_in(body)->Ok_0;
    let sent = JsonView::Object(crate::policy::upstream_members(request));
    assert(operations::is_within_ceilings(creation.caller, sent));
    assert(pending.op.call->Ok_0 == live.upstream.create_vouchers(creation.site, sent));
}

/// A proxy that holds another API key and is the same otherwise.
pub open spec fn with_key(s: StateView, key: Seq<char>) -> StateView {
    StateView {
        live: LiveView {
            upstream: crate::upstream::UpstreamView { api_key: key, ..s.live.upstream },
            ..s.live
        },
        ..s
    }
}

proof fn lemma_operated_under_another_key(
    before: StateView,
    after: StateView,
    caller: CallerView,
    action: Seq<char>,
    fault: Option<ErrorView>,
    plan: Result<AdmittedView, DeniedView>,
    other: Result<AdmittedView, DeniedView>,
    filter: bool,
    ok: bool,
    answer: AnswerView,
    key: Seq<char>,
)
    requires
        operated(before, after, caller, action, fault, plan, filter, ok, StepView::Answer(answer)),
        plan is Err ==> other == plan,
    ensures
        operated(
            with_key(before, key),
            with_key(after, key),
            caller,
            action,
            fault,
            other,
            filter,
            ok,
            StepView::Answer(answer),
        ),
{
    let r = choose|r: Result<AdmittedView, DeniedView>|
        #[trigger] operations::charged_for(
            before.live,
            after.live,
            caller,
            action,
            fault,
            plan,
            ok,
            r,
        ) && StepView::Answer(answer) == dispatched(caller, r, filter);
    assert(r is Err);
    assert(operations::charged_for(
        with_key(before, key).live,
        with_key(after, key).live,
        caller,
        action,
        fault,
        other,
        ok,
        r,
    ));
}

/// The API key never reaches a client: a proxy that holds another key answers
/// the same, in every way it can answer. (An answer that waits for the controller
/// is made of the caller and the controller's reply alone, as [`complete`]
/// states.)
pub proof fn no_answer_depends_on_the_key(
    before: StateView,
    after: StateView,
    head: HeadView,
    playground: bool,
    version: Seq<char>,
    now: TimestampView,
    answer: AnswerView,
    key: Seq<char>,
)
    requires
        may_begin(before, after, head, playground, version, now, StepView::Answer(answer)),
    ensures
        may_begin(
            with_key(before, key),
            with_key(after, key),
            head,
            playground,
            version,
            now,
            StepView::Answer(answer),
        ),
{
    let step = StepView::Answer(answer);
    let (known, ip_ok, ok) = choose|known: StateView, ip_ok: bool, ok: bool|
        began(before, known, after, head, playground, version, now, ip_ok, ok, step);
    let route = routes::route_for(head.method, head.path, playground);
    let b = with_key(before, key);
    let k = with_key(known, key);
    let a = with_key(after, key);
    if !is_open(route) {
        let verdict = before.live.verdict(head.path, head.headers, ip_ok, now);
        assert(b.live.verdict(head.path, head.headers, ip_ok, now) == verdict);
        assert(b.live.auth_after(head.headers, ip_ok) == before.live.auth_after(
            head.headers,
            ip_ok,
        ));
        assert(crate::state::resolved(
            b,
            k,
            head.path,
            head.headers,
            head.peer,
            now,
            ip_ok,
            verdict,
        ));
        if let Ok(caller) = verdict {
            match route {
                RouteView::ListSites => {
                    lemma_operated_under_another_key(
                        known,
                        after,
                        caller,
                        "sites:list"@,
                        caller.scope_fault(Scope::SitesRead),
                        operations::sites_plan(known.live, "sites:list"@),
                        operations::sites_plan(k.live, "sites:list"@),
                        true,
                        ok,
                        answer,
                        key,
                    );
                },
                RouteView::ListVouchers { site } => {
                    if let Some(site) = routes::segment_text(site) {
                        lemma_operated_under_another_key(
                            known,
                            after,
                            caller,
                            "vouchers:list"@,
                            operations::first_fault(
                                caller.scope_fault(Scope::VouchersRead),
                                caller.site_fault(site),
                            ),
                            operations::vouchers_plan(known.live, "vouchers:list"@, site),
                            operations::vouchers_plan(k.live, "vouchers:list"@, site),
                            false,
                            ok,
                            answer,
                            key,
                        );
                    }
                },
                RouteView::CreateVouchers { site } => {
                    if let Some(site) = routes::segment_text(site) {
                        let action = "vouchers:create"@;
                        let r = choose|r: Result<(), DeniedView>|
                            #[trigger] operations::permitted(
                                known.live,
                                after.live,
                                caller,
                                site,
                                action,
                                ok,
                                r,
                            ) && step == (match r {
                                Ok(_) => StepView::ReadBody(CreationView { caller, site }),
                                Err(denied) => StepView::Answer(denial(denied)),
                            });
                        assert(operations::permitted(
                            k.live,
                            a.live,
                            caller,
                            site,
                            action,
                            ok,
                            r,
                        ));
                    }
                },
                RouteView::DeleteVoucher { site, voucher } => {
                    if let Some(site) = routes::segment_text(site) {
                        if let Some(voucher) = routes::segment_text(voucher) {
                            lemma_operated_under_another_key(
                                known,
                                after,
                                caller,
                                "vouchers:revoke"@,
                                operations::first_fault(
                                    caller.scope_fault(Scope::VouchersRevoke),
                                    caller.site_fault(site),
                                ),
                                operations::revocation_plan(
                                    known.live,
                                    "vouchers:revoke"@,
                                    site,
                                    voucher,
                                ),
                                operations::revocation_plan(
                                    k.live,
                                    "vouchers:revoke"@,
                                    site,
                                    voucher,
                                ),
                                false,
                                ok,
                                answer,
                                key,
                            );
                        }
                    }
                },
                _ => {},
            }
            assert(handled(k, a, route, caller, version, ok, step));
        }
    }
    assert(began(b, k, a, head, playground, version, now, ip_ok, ok, step));
}

/// Nor does a creation that is answered at once depend on the key.
pub proof fn no_refused_creation_depends_on_the_key(
    state: StateView,
    creation: CreationView,
    body: JsonView,
    answer: AnswerView,
    key: Seq<char>,
)
    requires
        created(state.live, creation, body) == StepView::Answer(answer),
    ensures
        created(with_key(state, key).live, creation, body) == StepView::Answer(answer),
{
}

/// The answer to an operation that waited for the controller is made of the
/// caller and the reply alone: neither the call's key nor anything else of the
/// call shows in it.
pub proof fn a_completed_answer_shows_nothing_of_the_call(
    a: PendingView,
    b: PendingView,
    reply: Option<ReplyView>,
    elapsed: u128,
)
    requires
        a.caller == b.caller,
        a.filter == b.filter,
        a.op.trail == b.op.trail,
        a.op.call is Ok,
        b.op.call is Ok,
    ensures
        a.answer(reply, elapsed) == b.answer(reply, elapsed),
{
}

/// Whether a caller is not limited, or has a unit of its quota left.
pub open spec fn has_quota(live: LiveView, caller: CallerView) -> bool {
    let name = caller.token.name;
    live.rate.tokens.dom().contains(name) ==> live.rate.tokens[name].admitted
        < live.rate.tokens[name].burst
}

proof fn lemma_an_id_routes(site: Seq<char>)
    requires
        crate::upstream::is_id(site),
    ensures
        site.len() > 0,
        !site.contains('/'),
        routes::segment_text(site) == Some(site),
{
    crate::upstream::lemma_ids(site, "site id"@);
    crate::upstream::an_id_is_one_path_segment(site, "site id"@);
    routes::an_id_in_a_path_means_itself(site);
}

/// A request of a known caller for something that it is granted, with ids that are
/// ids and within its quota, comes to the call for it: to list the sites, to list a
/// site's vouchers or to revoke one of them. What reaches the controller is the call
/// for that very site and voucher, and the audit log will tell of it.
pub proof fn a_granted_request_is_carried_out(
    before: StateView,
    after: StateView,
    head: HeadView,
    playground: bool,
    version: Seq<char>,
    now: TimestampView,
    step: StepView,
    caller: CallerView,
    site: Seq<char>,
    voucher: Seq<char>,
)
    requires
        may_begin(before, after, head, playground, version, now, step),
        head.peer is None,
        before.live.verdict(head.path, head.headers, true, now) == Ok::<
            CallerView,
            crate::state::RefusalView,
        >(caller),
        has_quota(before.live, caller),
        crate::upstream::is_id(site),
        crate::upstream::is_id(voucher),
        caller.token.sites.contains("*"@) || caller.token.sites.contains(site),
    ensures
        ({
            let sites = "/proxy/network/integration/v1/sites"@;
            let vouchers = sites + "/"@ + site + "/hotspot/vouchers"@;
            let reads = head.method == "GET"@ || head.method == "HEAD"@;
            &&& head.path == sites && reads && caller.token.scopes.contains(Scope::SitesRead)
                ==> step == StepView::Operate(
                PendingView {
                    caller,
                    op: AdmittedView {
                        call: Ok(before.live.upstream.list_sites()),
                        trail: operations::TrailView {
                            action: "sites:list"@,
                            site: None,
                            target: None,
                            count: None,
                        },
                    },
                    filter: true,
                },
            )
            &&& head.path == vouchers && reads && caller.token.scopes.contains(Scope::VouchersRead)
                ==> step == StepView::Operate(
                PendingView {
                    caller,
                    op: AdmittedView {
                        call: Ok(before.live.upstream.list_vouchers(site)),
                        trail: operations::TrailView {
                            action: "vouchers:list"@,
                            site: Some(site),
                            target: None,
                            count: None,
                        },
                    },
                    filter: false,
                },
            )
            &&& head.path == vouchers && head.method == "POST"@ && caller.token.scopes.contains(
                Scope::VouchersCreate,
            ) ==> step == StepView::ReadBody(CreationView { caller, site })
            &&& head.path == vouchers + "/"@ + voucher && head.method == "DELETE"@
                && caller.token.scopes.contains(Scope::VouchersRevoke) ==> step
                == StepView::Operate(
                PendingView {
                    caller,
                    op: AdmittedView {
                        call: Ok(before.live.upstream.delete_voucher(site, voucher)),
                        trail: operations::TrailView {
                            action: "vouchers:revoke"@,
                            site: Some(site),
                            target: Some(voucher),
                            count: None,
                        },
                    },
                    filter: false,
                },
            )
        }),
{
    let (known, ip_ok, ok) = choose|known: StateView, ip_ok: bool, ok: bool|
        began(before, known, after, head, playground, version, now, ip_ok, ok, step);
    lemma_an_id_routes(site);
    lemma_an_id_routes(voucher);
    crate::upstream::lemma_ids(site, "site id"@);
    crate::upstream::lemma_ids(voucher, "voucher id"@);
    routes::every_served_path_is_routed(head.method, site, voucher, playground);
    crate::config::a_token_opens_the_sites_it_lists(caller.token, site);
    reveal_strlit("GET");
    reveal_strlit("HEAD");
    reveal_strlit("POST");
    reveal_strlit("DELETE");
    assert("GET"@.len() == 3 && "HEAD"@.len() == 4 && "POST"@.len() == 4 && "DELETE"@.len() == 6);
    assert("HEAD"@[0] == 'H' && "POST"@[0] == 'P');
    let route = routes::route_for(head.method, head.path, playground);
    if !is_open(route) {
        assert(handled(known, after, route, caller, version, ok, step));
        assert(known.live.upstream == before.live.upstream);
        assert(known.live.rate == before.live.rate);
    }
}

/// A creation that was paid for, whose request is acceptable and within the caller's
/// ceilings, is sent to the controller for that very site, with the body that reads
/// back as the request; any other is answered with an error and nothing is sent.
pub proof fn a_permitted_creation_is_sent(live: LiveView, creation: CreationView, body: JsonView)
    requires
        crate::upstream::is_id(creation.site),
    ensures
        ({
            let read = crate::policy::request_in(body);
            let step = created(live, creation, body);
            &&& read is Ok && crate::policy::refusal(read->Ok_0, creation.caller.ceilings) is None
                ==> {
                &&& step is Operate
                &&& step->Operate_0.caller == creation.caller
                &&& !step->Operate_0.filter
                &&& step->Operate_0.op.call is Ok
                &&& step->Operate_0.op.call->Ok_0.body is Some
                &&& step->Operate_0.op.call->Ok_0 == live.upstream.create_vouchers(
                    creation.site,
                    step->Operate_0.op.call->Ok_0.body->0,
                )
                &&& crate::policy::request_in(step->Operate_0.op.call->Ok_0.body->0) == read
                &&& step->Operate_0.op.trail == (operations::TrailView {
                    action: "vouchers:create"@,
                    site: Some(creation.site),
                    target: None,
                    count: Some(read->Ok_0.count),
                })
            }
            &&& read is Err ==> step is Answer && step->Answer_0.status == 400
            &&& read is Ok && crate::policy::refusal(read->Ok_0, creation.caller.ceilings) is Some
                ==> step is Answer && step->Answer_0.status == crate::policy::refusal(
                read->Ok_0,
                creation.caller.ceilings,
            )->0.status()
        }),
{
    operations::a_creation_is_sent_as_it_was_asked_for(
        live,
        creation.caller,
        "vouchers:create"@,
        creation.site,
        body,
    );
}

/// A completed operation is answered with what the controller said: a success with
/// 200 and the document, which for the sites is the part that the caller may see, and
/// an error with its status and its message. An operation that made no call is
/// answered with why it made none.
pub proof fn an_operation_is_answered_with_what_came_of_it(
    pending: PendingView,
    reply: ReplyView,
    elapsed: u128,
)
    ensures
        ({
            let a = pending.answer(Some(reply), elapsed);
            let made = pending.op.call is Ok;
            &&& made && reply.received() is Ok && !pending.filter ==> a.status == 200 && a.body
                == BodyView::Json(reply.received()->Ok_0)
            &&& made && reply.received() is Ok && pending.filter ==> a.status == 200 && a.body
                == BodyView::Json(routes::filtered(pending.caller, reply.received()->Ok_0))
            &&& made && reply.received() is Err ==> a.status == reply.received()->Err_0.status()
                && a.body == BodyView::Json(reply.received()->Err_0.envelope())
            &&& pending.op.call matches Err(e) ==> a.status == e.status() && a.body
                == BodyView::Json(e.envelope())
            &&& a.audit is Some
            &&& a.audit->0 is Request
            &&& a.audit->0->Request_0.token == pending.caller.token.name
            &&& a.audit->0->Request_0.action == pending.op.trail.action
            &&& a.audit->0->Request_0.status == a.status
            &&& made ==> pending.warning(Some(reply)) == reply.warning()
        }),
{
}

/// Every refusal is answered with the status and the message of its error, and a
/// request for the state of the proxy, or of a caller for its own grants, with 200.
pub proof fn a_refusal_is_answered_with_its_error(
    before: StateView,
    after: StateView,
    head: HeadView,
    playground: bool,
    version: Seq<char>,
    now: TimestampView,
    step: StepView,
)
    requires
        may_begin(before, after, head, playground, version, now, step),
        head.peer is None,
    ensures
        ({
            let route = routes::route_for(head.method, head.path, playground);
            let verdict = before.live.verdict(head.path, head.headers, true, now);
            &&& route is Healthz ==> step is Answer && step->Answer_0.status == 200
            &&& !is_open(route) && verdict is Err ==> {
                &&& step is Answer
                &&& step->Answer_0.status == verdict->Err_0.error.status()
                &&& step->Answer_0.body == BodyView::Json(verdict->Err_0.error.envelope())
                &&& step->Answer_0.audit == Some(EventView::Rejected(verdict->Err_0.audit))
            }
            &&& route is Info && verdict is Ok ==> {
                &&& step is Answer
                &&& step->Answer_0.status == 200
                &&& step->Answer_0.body == BodyView::Json(
                    JsonView::Object(routes::info_members(verdict->Ok_0, version)),
                )
            }
            &&& route is Graphql && verdict is Ok ==> step == StepView::Graphql(verdict->Ok_0)
            &&& route is GraphqlSchema && verdict is Ok ==> step == StepView::GraphqlSchema
            &&& route is Playground ==> step == StepView::Playground
        }),
{
}

/// A known caller that lacks the scope for what it asks, or the site, is answered 403
/// and pays nothing, and the audit log is told.
pub proof fn an_ungranted_request_is_forbidden_and_free(
    before: StateView,
    after: StateView,
    head: HeadView,
    playground: bool,
    version: Seq<char>,
    now: TimestampView,
    step: StepView,
    caller: CallerView,
    site: Seq<char>,
    voucher: Seq<char>,
)
    requires
        may_begin(before, after, head, playground, version, now, step),
        head.peer is None,
        before.live.verdict(head.path, head.headers, true, now) == Ok::<
            CallerView,
            crate::state::RefusalView,
        >(caller),
        crate::upstream::is_id(site),
        crate::upstream::is_id(voucher),
    ensures
        ({
            let sites = "/proxy/network/integration/v1/sites"@;
            let vouchers = sites + "/"@ + site + "/hotspot/vouchers"@;
            let reads = head.method == "GET"@ || head.method == "HEAD"@;
            let listed = caller.token.sites.contains("*"@) || caller.token.sites.contains(site);
            let scopes = caller.token.scopes;
            let forbidden = {
                ||| head.path == sites && reads && !scopes.contains(Scope::SitesRead)
                ||| head.path == vouchers && reads && (!scopes.contains(Scope::VouchersRead)
                    || !listed)
                ||| head.path == vouchers && head.method == "POST"@ && (!scopes.contains(
                    Scope::VouchersCreate,
                ) || !listed)
                ||| head.path == vouchers + "/"@ + voucher && head.method == "DELETE"@ && (
                !scopes.contains(Scope::VouchersRevoke) || !listed)
            };
            forbidden ==> {
                &&& step is Answer
                &&& step->Answer_0.status == 403
                &&& step->Answer_0.audit is Some
                &&& after.live.rate == before.live.rate
                &&& after.metrics == before.metrics
            }
        }),
{
    let (known, ip_ok, ok) = choose|known: StateView, ip_ok: bool, ok: bool|
        began(before, known, after, head, playground, version, now, ip_ok, ok, step);
    lemma_an_id_routes(site);
    lemma_an_id_routes(voucher);
    routes::every_served_path_is_routed(head.method, site, voucher, playground);
    crate::config::a_token_opens_the_sites_it_lists(caller.token, site);
    reveal_strlit("GET");
    reveal_strlit("HEAD");
    reveal_strlit("POST");
    reveal_strlit("DELETE");
    assert("GET"@.len() == 3 && "HEAD"@.len() == 4 && "POST"@.len() == 4 && "DELETE"@.len() == 6);
    assert("HEAD"@[0] == 'H' && "POST"@[0] == 'P');
    let route = routes::route_for(head.method, head.path, playground);
    if !is_open(route) {
        assert(handled(known, after, route, caller, version, ok, step));
        assert(known.live.rate == before.live.rate);
    }
}

/// An operation whose call came to nothing is answered 502, and one that made no call
/// with why it made none; either way the audit log is told.
pub proof fn an_operation_without_a_reply_is_answered(pending: PendingView, elapsed: u128)
    ensures
        ({
            let a = pending.answer(None, elapsed);
            &&& pending.op.call is Ok ==> a.status == 502
            &&& pending.op.call matches Err(e) ==> a.status == e.status() && a.body
                == BodyView::Json(e.envelope())
            &&& a.audit is Some
            &&& pending.warning(None) is None
        }),
{
}

} // verus!
