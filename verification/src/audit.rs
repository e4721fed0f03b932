//! The audit trail.

use vstd::prelude::*;
use vstd::string::*;

verus! {

/// One line per request, on the `audit` target.
///
/// The point of an audit log here is answering "what did that app actually do
/// to my controller" months later, so it records the acting token, the
/// operation, and the outcome — and never the token value, the upstream API
/// key, or voucher codes.
#[derive(Debug)]
pub struct AuditRecord {
    pub token: String,
    pub action: String,
    pub site: Option<String>,
    pub target: Option<String>,
    pub count: Option<u32>,
    pub status: u16,
    pub outcome: String,
    /// How long the request took, in nanoseconds.
    pub elapsed: u128,
}

/// A record with every field filled in, as it is logged.
#[derive(Debug)]
pub struct AuditLine {
    pub token: String,
    pub action: String,
    pub site: String,
    pub target_id: String,
    pub count: u32,
    pub status: u16,
    pub outcome: String,
    pub elapsed_ms: u64,
}

/// A record as the contracts speak of it.
pub ghost struct RecordView {
    pub token: Seq<char>,
    pub action: Seq<char>,
    pub site: Option<Seq<char>>,
    pub target: Option<Seq<char>>,
    pub count: Option<u32>,
    pub status: u16,
    pub outcome: Seq<char>,
    pub elapsed: u128,
}

/// A logged line as the contracts speak of it.
pub ghost struct LineView {
    pub token: Seq<char>,
    pub action: Seq<char>,
    pub site: Seq<char>,
    pub target_id: Seq<char>,
    pub count: u32,
    pub status: u16,
    pub outcome: Seq<char>,
    pub elapsed_ms: int,
}

impl View for AuditRecord {
    type V = RecordView;

    open spec fn view(&self) -> RecordView {
        RecordView {
            token: self.token@,
            action: self.action@,
            site: crate::model::text_option(self.site),
            target: crate::model::text_option(self.target),
            count: self.count,
            status: self.status,
            outcome: self.outcome@,
            elapsed: self.elapsed,
        }
    }
}

impl View for AuditLine {
    type V = LineView;

    open spec fn view(&self) -> LineView {
        LineView {
            token: self.token@,
            action: self.action@,
            site: self.site@,
            target_id: self.target_id@,
            count: self.count,
            status: self.status,
            outcome: self.outcome@,
            elapsed_ms: self.elapsed_ms as int,
        }
    }
}

impl RecordView {
    /// How a record is logged: a dash for what is absent, and whole milliseconds,
    /// of which the log keeps 64 bits.
    pub open spec fn line(self) -> LineView {
        LineView {
            token: self.token,
            action: self.action,
            site: crate::model::or_else(self.site, "-"@),
            target_id: crate::model::or_else(self.target, "-"@),
            count: match self.count {
                Some(n) => n,
                None => 0,
            },
            status: self.status,
            outcome: self.outcome,
            elapsed_ms: (self.elapsed as int / 1_000_000) % 0x1_0000_0000_0000_0000,
        }
    }
}

fn or_dash(s: &Option<String>) -> (r: String)
    ensures
        r@ == crate::model::or_else(crate::model::text_option(*s), "-"@),
{
    match s {
        Some(s) => s.as_str().to_owned(),
        None => "-".to_owned(),
    }
}

impl AuditRecord {
    /// The line to log for this record.
    pub fn emit(&self) -> (r: AuditLine)
        ensures
            r@ == self@.line(),
    {
        let millis: u128 = self.elapsed / 1_000_000 % 0x1_0000_0000_0000_0000;
        AuditLine {
            token: self.token.as_str().to_owned(),
            action: self.action.as_str().to_owned(),
            site: or_dash(&self.site),
            target_id: or_dash(&self.target),
            count: match self.count {
                Some(n) => n,
                None => 0,
            },
            status: self.status,
            outcome: self.outcome.as_str().to_owned(),
            elapsed_ms: millis as u64,
        }
    }
}

/// Audit entry for a request that was refused.
#[derive(Debug)]
pub struct Rejected {
    pub token: String,
    pub action: String,
    pub outcome: String,
    pub status: u16,
}

/// Such an entry as the contracts speak of it.
pub ghost struct RejectedView {
    pub token: Seq<char>,
    pub action: Seq<char>,
    pub outcome: Seq<char>,
    pub status: u16,
}

impl View for Rejected {
    type V = RejectedView;

    open spec fn view(&self) -> RejectedView {
        RejectedView {
            token: self.token@,
            action: self.action@,
            outcome: self.outcome@,
            status: self.status,
        }
    }
}

/// How a rejection is logged that no caller was identified for: under a dash in
/// place of a token.
pub open spec fn rejection(action: Seq<char>, reason: Seq<char>, status: u16) -> RejectedView {
    RejectedView { token: "-"@, action, outcome: reason, status }
}

/// The entry to log for a request that never got as far as identifying a caller.
pub fn rejected(action: &str, reason: &str, status: u16) -> (r: Rejected)
    ensures
        r@ == rejection(action@, reason@, status),
{
    Rejected {
        token: "-".to_owned(),
        action: action.to_owned(),
        outcome: reason.to_owned(),
        status,
    }
}

/// How a rejection of a known token is logged: under the token's name.
pub open spec fn rejection_of(
    token: Seq<char>,
    action: Seq<char>,
    reason: Seq<char>,
    status: u16,
) -> RejectedView {
    RejectedView { token, action, outcome: reason, status }
}

/// The entry to log for a request of a token that is known.
pub fn rejected_token(token: &str, action: &str, reason: &str, status: u16) -> (r: Rejected)
    ensures
        r@ == rejection_of(token@, action@, reason@, status),
{
    Rejected {
        token: token.to_owned(),
        action: action.to_owned(),
        outcome: reason.to_owned(),
        status,
    }
}

/// One entry of the audit log.
#[derive(Debug)]
pub enum AuditEvent {
    Request(AuditLine),
    Rejected(Rejected),
}

/// Such an entry as the contracts speak of it.
pub ghost enum EventView {
    Request(LineView),
    Rejected(RejectedView),
}

impl View for AuditEvent {
    type V = EventView;

    open spec fn view(&self) -> EventView {
        match self {
            AuditEvent::Request(line) => EventView::Request(line@),
            AuditEvent::Rejected(entry) => EventView::Rejected(entry@),
        }
    }
}

/// An optional entry, taken by its view.
pub open spec fn event_option(e: Option<AuditEvent>) -> Option<EventView> {
    match e {
        Some(e) => Some(e@),
        None => None,
    }
}

// ---------------------------------------------------------------------------
// What holds of the log
// ---------------------------------------------------------------------------

/// A line tells what was recorded and nothing else: each of its fields is the one of
/// that name, a dash stands for a site or a target that there was none of, and the
/// time is in milliseconds, rounded down.
pub proof fn a_line_tells_what_was_recorded(r: RecordView)
    ensures
        r.line().token == r.token,
        r.line().action == r.action,
        r.line().status == r.status,
        r.line().outcome == r.outcome,
        r.line().site == (if r.site is Some {
            r.site->0
        } else {
            "-"@
        }),
        r.line().target_id == (if r.target is Some {
            r.target->0
        } else {
            "-"@
        }),
        r.count is Some ==> r.line().count == r.count->0,
        r.count is None ==> r.line().count == 0,
        r.elapsed < 1_000_000 * 0x1_0000_0000_0000_0000 ==> r.line().elapsed_ms * 1_000_000
            <= r.elapsed < (r.line().elapsed_ms + 1) * 1_000_000,
{
}

/// An entry on a refused request holds what it is given, under the name of the token
/// where there is one and under a dash where there is none.
pub proof fn an_entry_holds_what_it_is_given(
    token: Seq<char>,
    action: Seq<char>,
    reason: Seq<char>,
    status: u16,
)
    ensures
        rejection(action, reason, status).token == "-"@,
        rejection(action, reason, status).action == action,
        rejection(action, reason, status).outcome == reason,
        rejection(action, reason, status).status == status,
        rejection_of(token, action, reason, status).token == token,
        rejection_of(token, action, reason, status).action == action,
        rejection_of(token, action, reason, status).outcome == reason,
        rejection_of(token, action, reason, status).status == status,
{
}

} // verus!
