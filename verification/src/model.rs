//! Typed views over the controller's JSON.
//!
//! The Integration API is not consistent across firmware revisions — ids arrive
//! as `id` or `_id`, names as `name`, `desc` or `internalReference`, and usage
//! counters are absent entirely on some tiers. Parsing is therefore forgiving:
//! every optional field stays optional rather than failing a whole response.
//!
//! Timestamps are carried as the strings the controller sent (ISO-8601). They
//! are deliberately not parsed into a date type: the formats vary by firmware
//! and re-encoding them would risk changing what a client sees.

use vstd::prelude::*;
use vstd::string::*;

use crate::json::{Json, JsonNumber, JsonView, NumberView};
use crate::text::{parse_integer, show, show_signed};

verus! {

/// A UniFi site.
#[derive(Debug)]
pub struct Site {
    /// Site id, as used in every other call.
    pub id: String,
    /// Human-readable name.
    pub name: String,
}

/// A hotspot voucher.
#[derive(Debug)]
pub struct Voucher {
    pub id: String,
    /// The 10-digit code a guest types in.
    pub code: String,
    pub name: Option<String>,
    /// How long the voucher is valid once redeemed.
    pub time_limit_minutes: Option<i64>,
    /// How many devices may share it.
    pub authorized_guest_limit: Option<i64>,
    /// How many have used it so far. Absent when the controller does not report it.
    pub authorized_guest_count: Option<i64>,
    pub expired: bool,
    /// ISO-8601, as sent by the controller.
    pub expires_at: Option<String>,
    /// ISO-8601, as sent by the controller.
    pub created_at: Option<String>,
    pub data_usage_limit_m_bytes: Option<i64>,
    pub rx_rate_limit_kbps: Option<i64>,
    pub tx_rate_limit_kbps: Option<i64>,
}

/// A site as the contracts speak of it.
pub ghost struct SiteView {
    pub id: Seq<char>,
    pub name: Seq<char>,
}

/// A voucher as the contracts speak of it.
pub ghost struct VoucherView {
    pub id: Seq<char>,
    pub code: Seq<char>,
    pub name: Option<Seq<char>>,
    pub time_limit_minutes: Option<i64>,
    pub authorized_guest_limit: Option<i64>,
    pub authorized_guest_count: Option<i64>,
    pub expired: bool,
    pub expires_at: Option<Seq<char>>,
    pub created_at: Option<Seq<char>>,
    pub data_usage_limit_m_bytes: Option<i64>,
    pub rx_rate_limit_kbps: Option<i64>,
    pub tx_rate_limit_kbps: Option<i64>,
}

/// An optional string, taken by its view.
pub open spec fn text_option(s: Option<String>) -> Option<Seq<char>> {
    match s {
        Some(s) => Some(s@),
        None => None,
    }
}

impl View for Site {
    type V = SiteView;

    open spec fn view(&self) -> SiteView {
        SiteView { id: self.id@, name: self.name@ }
    }
}

impl View for Voucher {
    type V = VoucherView;

    open spec fn view(&self) -> VoucherView {
        VoucherView {
            id: self.id@,
            code: self.code@,
            name: text_option(self.name),
            time_limit_minutes: self.time_limit_minutes,
            authorized_guest_limit: self.authorized_guest_limit,
            authorized_guest_count: self.authorized_guest_count,
            expired: self.expired,
            expires_at: text_option(self.expires_at),
            created_at: text_option(self.created_at),
            data_usage_limit_m_bytes: self.data_usage_limit_m_bytes,
            rx_rate_limit_kbps: self.rx_rate_limit_kbps,
            tx_rate_limit_kbps: self.tx_rate_limit_kbps,
        }
    }
}

// ---------------------------------------------------------------------------
// Single members
// ---------------------------------------------------------------------------

/// A number as it is written.
pub open spec fn number_text(n: NumberView) -> Seq<char> {
    match n {
        NumberView::Unsigned(n) => crate::text::decimal(n as nat),
        NumberView::Negative(n) => crate::text::signed_decimal(n as int),
        NumberView::Fraction(t) => t,
    }
}

/// What a member says where a text is looked for: a text that is not empty, or a
/// number as it is written.
pub open spec fn str_in(v: Option<JsonView>) -> Option<Seq<char>> {
    match v {
        Some(JsonView::Text(s)) => if s.len() > 0 {
            Some(s)
        } else {
            None
        },
        Some(JsonView::Number(n)) => Some(number_text(n)),
        _ => None,
    }
}

/// What a member says where an integer is looked for: an integer of 64 bits, or
/// a text that spells one.
pub open spec fn int_in(v: Option<JsonView>) -> Option<i64> {
    match v {
        Some(JsonView::Number(NumberView::Unsigned(n))) => if n <= i64::MAX {
            Some(n as i64)
        } else {
            None
        },
        Some(JsonView::Number(NumberView::Negative(n))) => Some(n),
        Some(JsonView::Text(s)) => crate::text::integer_of(s),
        _ => None,
    }
}

/// What a member says where a flag is looked for; anything else is no.
pub open spec fn flag_in(v: Option<JsonView>) -> bool {
    v == Some(JsonView::Bool(true))
}

/// The first of two texts that is there.
pub open spec fn either(a: Option<Seq<char>>, b: Option<Seq<char>>) -> Option<Seq<char>> {
    match a {
        Some(s) => Some(s),
        None => b,
    }
}

/// What is there, or else `other`.
pub open spec fn or_else(a: Option<Seq<char>>, other: Seq<char>) -> Seq<char> {
    match a {
        Some(s) => s,
        None => other,
    }
}

/// Reads a member as a text.
pub fn as_str(v: Option<&Json>) -> (r: Option<String>)
    ensures
        text_option(r) == str_in(crate::json::view_of(v)),
{
    match v {
        Some(Json::Text(s)) => if s.as_str().is_empty() {
            None
        } else {
            Some(s.as_str().to_owned())
        },
        Some(Json::Number(JsonNumber::Unsigned(n))) => Some(show(*n)),
        Some(Json::Number(JsonNumber::Negative(n))) => Some(show_signed(*n)),
        Some(Json::Number(JsonNumber::Fraction(f))) => Some(f.text().to_owned()),
        _ => None,
    }
}

/// Reads a member as an integer.
pub fn as_int(v: Option<&Json>) -> (r: Option<i64>)
    ensures
        r == int_in(crate::json::view_of(v)),
{
    match v {
        Some(Json::Number(JsonNumber::Unsigned(n))) => if *n <= i64::MAX as u64 {
            Some(*n as i64)
        } else {
            None
        },
        Some(Json::Number(JsonNumber::Negative(n))) => Some(*n),
        Some(Json::Text(s)) => parse_integer(s.as_str()),
        _ => None,
    }
}

fn as_flag(v: Option<&Json>) -> (r: bool)
    ensures
        r == flag_in(crate::json::view_of(v)),
{
    match v {
        Some(Json::Bool(b)) => *b,
        _ => false,
    }
}

// ---------------------------------------------------------------------------
// Lists
// ---------------------------------------------------------------------------

/// The elements of the first member that is a list; none where no member is.
pub open spec fn first_list(members: Seq<(Seq<char>, JsonView)>) -> Seq<JsonView>
    decreases members.len(),
{
    if members.len() == 0 {
        seq![]
    } else {
        match members[0].1 {
            JsonView::Array(items) => items,
            _ => first_list(members.drop_first()),
        }
    }
}

/// The list that an upstream document holds.
pub open spec fn list_in(v: JsonView) -> Seq<JsonView> {
    match v {
        JsonView::Array(items) => items,
        JsonView::Object(members) => match v.get("data"@) {
            Some(JsonView::Array(items)) => items,
            _ => match v.get("vouchers"@) {
                Some(JsonView::Array(items)) => items,
                _ => first_list(members),
            },
        },
        _ => seq![],
    }
}

fn first_list_of(members: &Vec<(String, Json)>) -> (r: Option<&Vec<Json>>)
    ensures
        match r {
            Some(items) => first_list(crate::json::member_views(members@)) == crate::json::views(
                items@,
            ),
            None => first_list(crate::json::member_views(members@)).len() == 0,
        },
{
    let ghost all = crate::json::member_views(members@);
    let mut i: usize = 0;
    assert(all.skip(0) =~= all);
    while i < members.len()
        invariant
            i <= members@.len(),
            all == crate::json::member_views(members@),
            first_list(all) == first_list(all.skip(i as int)),
        decreases members.len() - i,
    {
        let ghost rest = all.skip(i as int);
        assert(rest[0] == (members@[i as int].0@, members@[i as int].1@));
        proof {
            crate::json::lemma_container_views(members@[i as int].1);
        }
        if let Json::Array(items) = &members[i].1 {
            return Some(items);
        }
        assert(rest.drop_first() =~= all.skip(i + 1));
        i += 1;
    }
    None
}

/// The list that an upstream document holds, where it stands in the document.
fn find_list(body: &Json) -> (r: Option<&Vec<Json>>)
    ensures
        match r {
            Some(items) => list_in(body@) == crate::json::views(items@),
            None => list_in(body@).len() == 0,
        },
{
    proof {
        crate::json::lemma_container_views(*body);
    }
    match body {
        Json::Array(items) => Some(items),
        Json::Object(members) => {
            let data = body.get("data");
            if let Some(list) = data {
                proof {
                    crate::json::lemma_container_views(*list);
                }
                if let Json::Array(items) = list {
                    return Some(items);
                }
            }
            let vouchers = body.get("vouchers");
            if let Some(list) = vouchers {
                proof {
                    crate::json::lemma_container_views(*list);
                }
                if let Json::Array(items) = list {
                    return Some(items);
                }
            }
            first_list_of(members)
        },
        _ => None,
    }
}

/// Pulls the list out of an upstream envelope. Paged reads use `data`, but
/// `POST /hotspot/vouchers` answers `{"vouchers": [...]}`, so both are accepted
/// before falling back to the first list-valued field.
pub fn list_field(body: &Json) -> (r: Vec<Json>)
    ensures
        crate::json::views(r@) == list_in(body@),
{
    let mut r: Vec<Json> = Vec::new();
    match find_list(body) {
        None => {
            assert(crate::json::views(r@) =~= list_in(body@));
        },
        Some(items) => {
            let ghost all = crate::json::views(items@);
            let mut i: usize = 0;
            while i < items.len()
                invariant
                    i <= items@.len(),
                    all == crate::json::views(items@),
                    crate::json::views(r@) == all.take(i as int),
                decreases items.len() - i,
            {
                let ghost before = r@;
                r.push(items[i].clone());
                i += 1;
                proof {
                    assert(crate::json::views(r@) =~= crate::json::views(before).push(all[i - 1]));
                    assert(all.take(i as int) =~= all.take(i - 1).push(all[i - 1]));
                }
            }
            assert(all.take(i as int) =~= all);
        },
    }
    r
}

/// The site that a document describes; `None` where it has no id.
pub open spec fn site_in(v: JsonView) -> Option<SiteView> {
    match either(str_in(v.get("id"@)), str_in(v.get("_id"@))) {
        None => None,
        Some(id) => Some(
            SiteView {
                id,
                name: or_else(
                    either(
                        either(str_in(v.get("name"@)), str_in(v.get("internalReference"@))),
                        str_in(v.get("desc"@)),
                    ),
                    id,
                ),
            },
        ),
    }
}

/// The voucher that a document describes; `None` where it has no id.
pub open spec fn voucher_in(v: JsonView) -> Option<VoucherView> {
    match either(str_in(v.get("id"@)), str_in(v.get("_id"@))) {
        None => None,
        Some(id) => Some(
            VoucherView {
                id,
                code: or_else(str_in(v.get("code"@)), seq![]),
                name: str_in(v.get("name"@)),
                time_limit_minutes: int_in(v.get("timeLimitMinutes"@)),
                authorized_guest_limit: int_in(v.get("authorizedGuestLimit"@)),
                authorized_guest_count: int_in(v.get("authorizedGuestCount"@)),
                expired: flag_in(v.get("expired"@)),
                expires_at: str_in(v.get("expiresAt"@)),
                created_at: str_in(v.get("createdAt"@)),
                data_usage_limit_m_bytes: int_in(v.get("dataUsageLimitMBytes"@)),
                rx_rate_limit_kbps: int_in(v.get("rxRateLimitKbps"@)),
                tx_rate_limit_kbps: int_in(v.get("txRateLimitKbps"@)),
            },
        ),
    }
}

/// The sites that some documents describe, those without an id left out.
pub open spec fn sites_in(items: Seq<JsonView>) -> Seq<SiteView> {
    items.filter_map(|v: JsonView| site_in(v))
}

/// The vouchers that some documents describe, those without an id left out.
pub open spec fn vouchers_in(items: Seq<JsonView>) -> Seq<VoucherView> {
    items.filter_map(|v: JsonView| voucher_in(v))
}

/// Sites, each taken by its view.
pub open spec fn site_views(sites: Seq<Site>) -> Seq<SiteView> {
    sites.map_values(|s: Site| s@)
}

/// Vouchers, each taken by its view.
pub open spec fn voucher_views(vouchers: Seq<Voucher>) -> Seq<VoucherView> {
    vouchers.map_values(|v: Voucher| v@)
}

fn first_of(v: &Json, a: &str, b: &str) -> (r: Option<String>)
    ensures
        text_option(r) == either(str_in(v@.get(a@)), str_in(v@.get(b@))),
{
    match as_str(v.get(a)) {
        Some(s) => Some(s),
        None => as_str(v.get(b)),
    }
}

impl Clone for Site {
    fn clone(&self) -> (r: Self)
        ensures
            r@ == self@,
    {
        Site { id: self.id.as_str().to_owned(), name: self.name.as_str().to_owned() }
    }
}

impl Site {
    pub fn from_json(v: &Json) -> (r: Option<Self>)
        ensures
            (match r {
                Some(site) => Some(site@),
                None => None,
            }) == site_in(v@),
    {
        let id = match first_of(v, "id", "_id") {
            Some(id) => id,
            None => return None,
        };
        let name = match first_of(v, "name", "internalReference") {
            Some(name) => name,
            None => match as_str(v.get("desc")) {
                Some(name) => name,
                None => id.as_str().to_owned(),
            },
        };
        Some(Site { id, name })
    }

    /// The sites that an upstream document lists. An entry without an id is
    /// skipped instead of failing the response.
    pub fn list(body: &Json) -> (r: Vec<Self>)
        ensures
            site_views(r@) == sites_in(list_in(body@)),
    {
        let items = list_field(body);
        let ghost all = crate::json::views(items@);
        let mut r: Vec<Site> = Vec::new();
        let mut i: usize = 0;
        assert(sites_in(all.take(0)) =~= site_views(r@));
        while i < items.len()
            invariant
                i <= items@.len(),
                all == crate::json::views(items@),
                site_views(r@) == sites_in(all.take(i as int)),
            decreases items.len() - i,
        {
            let ghost before = r@;
            assert(all.take(i + 1).drop_last() =~= all.take(i as int));
            match Site::from_json(&items[i]) {
                Some(site) => {
                    r.push(site);
                    assert(site_views(r@) =~= site_views(before) + seq![site@]);
                },
                None => {},
            }
            i += 1;
        }
        assert(all.take(i as int) =~= all);
        r
    }
}

impl Voucher {
    pub fn from_json(v: &Json) -> (r: Option<Self>)
        ensures
            (match r {
                Some(voucher) => Some(voucher@),
                None => None,
            }) == voucher_in(v@),
    {
        let id = match first_of(v, "id", "_id") {
            Some(id) => id,
            None => return None,
        };
        let code = match as_str(v.get("code")) {
            Some(code) => code,
            None => String::new(),
        };
        let voucher = Voucher {
            id,
            code,
            name: as_str(v.get("name")),
            time_limit_minutes: as_int(v.get("timeLimitMinutes")),
            authorized_guest_limit: as_int(v.get("authorizedGuestLimit")),
            authorized_guest_count: as_int(v.get("authorizedGuestCount")),
            expired: as_flag(v.get("expired")),
            expires_at: as_str(v.get("expiresAt")),
            created_at: as_str(v.get("createdAt")),
            data_usage_limit_m_bytes: as_int(v.get("dataUsageLimitMBytes")),
            rx_rate_limit_kbps: as_int(v.get("rxRateLimitKbps")),
            tx_rate_limit_kbps: as_int(v.get("txRateLimitKbps")),
        };
        assert(voucher@.code =~= or_else(str_in(v@.get("code"@)), seq![]));
        Some(voucher)
    }

    /// The vouchers that an upstream document lists. An entry without an id is
    /// skipped instead of failing the response.
    pub fn list(body: &Json) -> (r: Vec<Self>)
        ensures
            voucher_views(r@) == vouchers_in(list_in(body@)),
    {
        let items = list_field(body);
        let ghost all = crate::json::views(items@);
        let mut r: Vec<Voucher> = Vec::new();
        let mut i: usize = 0;
        assert(vouchers_in(all.take(0)) =~= voucher_views(r@));
        while i < items.len()
            invariant
                i <= items@.len(),
                all == crate::json::views(items@),
                voucher_views(r@) == vouchers_in(all.take(i as int)),
            decreases items.len() - i,
        {
            let ghost before = r@;
            assert(all.take(i + 1).drop_last() =~= all.take(i as int));
            match Voucher::from_json(&items[i]) {
                Some(voucher) => {
                    r.push(voucher);
                    assert(voucher_views(r@) =~= voucher_views(before) + seq![voucher@]);
                },
                None => {},
            }
            i += 1;
        }
        assert(all.take(i as int) =~= all);
        r
    }
}

// ---------------------------------------------------------------------------
// What holds of lists
// ---------------------------------------------------------------------------

/// A list is read the same whether it stands alone or in an envelope.
pub proof fn envelopes_agree(items: Seq<JsonView>)
    ensures
        list_in(JsonView::Array(items)) == items,
        list_in(JsonView::Object(seq![("data"@, JsonView::Array(items))])) == items,
        list_in(JsonView::Object(seq![("vouchers"@, JsonView::Array(items))])) == items,
{
    reveal_strlit("data");
    reveal_strlit("vouchers");
    let lone = seq![("vouchers"@, JsonView::Array(items))];
    assert("data"@.len() != "vouchers"@.len());
    assert(lone.drop_first() =~= seq![]);
    reveal_with_fuel(JsonView::member, 2);
    assert(JsonView::member(lone, "data"@) is None);
}

/// An entry without an id takes nothing away from the entries around it.
pub proof fn an_entry_without_an_id_is_skipped(
    before: Seq<JsonView>,
    entry: JsonView,
    after: Seq<JsonView>,
)
    requires
        str_in(entry.get("id"@)) is None,
        str_in(entry.get("_id"@)) is None,
    ensures
        sites_in(before + seq![entry] + after) == sites_in(before + after),
        vouchers_in(before + seq![entry] + after) == vouchers_in(before + after),
    decreases after.len(),
{
    let with = before + seq![entry] + after;
    let without = before + after;
    if after.len() == 0 {
        assert(with.drop_last() =~= before);
        assert(without =~= before);
        assert(sites_in(with) =~= sites_in(before));
        assert(vouchers_in(with) =~= vouchers_in(before));
    } else {
        an_entry_without_an_id_is_skipped(before, entry, after.drop_last());
        assert(with.drop_last() =~= before + seq![entry] + after.drop_last());
        assert(without.drop_last() =~= before + after.drop_last());
        assert(with.last() == without.last());
    }
}

// ---------------------------------------------------------------------------
// What holds of single members
// ---------------------------------------------------------------------------

/// A member that is a text is read as that text, unless it is empty; a number is
/// read as it is written; a member that is missing or anything else is read as
/// nothing.
pub proof fn a_text_is_read_as_it_stands(s: Seq<char>, n: u64, m: i64, f: Seq<char>)
    ensures
        s.len() > 0 ==> str_in(Some(JsonView::Text(s))) == Some(s),
        s.len() == 0 ==> str_in(Some(JsonView::Text(s))) is None,
        str_in(Some(JsonView::Number(NumberView::Unsigned(n)))) == Some(
            crate::text::decimal(n as nat),
        ),
        str_in(Some(JsonView::Number(NumberView::Negative(m)))) == Some(
            crate::text::signed_decimal(m as int),
        ),
        str_in(Some(JsonView::Number(NumberView::Fraction(f)))) == Some(f),
        str_in(None) is None,
        str_in(Some(JsonView::Null)) is None,
        forall|b: bool| (#[trigger] str_in(Some(JsonView::Bool(b)))) is None,
        forall|items: Seq<JsonView>| (#[trigger] str_in(Some(JsonView::Array(items)))) is None,
        forall|members: Seq<(Seq<char>, JsonView)>|
            (#[trigger] str_in(Some(JsonView::Object(members)))) is None,
{
}

/// A member that is an integer of 64 bits is read as that integer, and so is a text
/// that spells it; a member that is missing or anything else is read as nothing.
pub proof fn an_integer_is_read_as_it_stands(n: u64, m: i64, f: Seq<char>)
    ensures
        n <= i64::MAX ==> int_in(Some(JsonView::Number(NumberView::Unsigned(n)))) == Some(n as i64),
        n > i64::MAX ==> int_in(Some(JsonView::Number(NumberView::Unsigned(n)))) is None,
        int_in(Some(JsonView::Number(NumberView::Negative(m)))) == Some(m),
        int_in(Some(JsonView::Text(crate::text::signed_decimal(m as int)))) == Some(m),
        int_in(Some(JsonView::Text(Seq::<char>::empty()))) is None,
        int_in(Some(JsonView::Number(NumberView::Fraction(f)))) is None,
        int_in(None) is None,
        int_in(Some(JsonView::Null)) is None,
        forall|b: bool| (#[trigger] int_in(Some(JsonView::Bool(b)))) is None,
        forall|items: Seq<JsonView>| (#[trigger] int_in(Some(JsonView::Array(items)))) is None,
        forall|members: Seq<(Seq<char>, JsonView)>|
            (#[trigger] int_in(Some(JsonView::Object(members)))) is None,
{
    crate::text::an_integer_reads_back(m);
}

/// Whether a field that holds a text is read from one member and nothing else:
/// that text where the member is one that is not empty, and nothing where the
/// member is missing, empty, null or a flag.
pub open spec fn is_text_of(field: Option<Seq<char>>, member: Option<JsonView>) -> bool {
    &&& member is None ==> field is None
    &&& member == Some(JsonView::Null) ==> field is None
    &&& member matches Some(JsonView::Bool(_)) ==> field is None
    &&& member matches Some(JsonView::Text(s)) ==> (if s.len() > 0 {
        field == Some(s)
    } else {
        field is None
    })
    &&& member matches Some(JsonView::Number(NumberView::Unsigned(n))) ==> field == Some(
        crate::text::decimal(n as nat),
    )
}

/// Whether a field that holds an integer is read from one member and nothing else.
pub open spec fn is_integer_of(field: Option<i64>, member: Option<JsonView>) -> bool {
    &&& member is None ==> field is None
    &&& member == Some(JsonView::Null) ==> field is None
    &&& member matches Some(JsonView::Bool(_)) ==> field is None
    &&& member matches Some(JsonView::Number(NumberView::Negative(n))) ==> field == Some(n)
    &&& member matches Some(JsonView::Number(NumberView::Unsigned(n))) ==> (if n <= i64::MAX {
        field == Some(n as i64)
    } else {
        field is None
    })
    &&& member matches Some(JsonView::Text(s)) ==> forall|n: i64| #[trigger]
        crate::text::signed_decimal(n as int) == s ==> field == Some(n)
}

/// Every field of a voucher is read from its own member, under the name that the
/// controller has for it, and from nothing else.
pub proof fn every_field_of_a_voucher_has_its_own_member(v: JsonView)
    requires
        voucher_in(v) is Some,
    ensures
        ({
            let w = voucher_in(v)->0;
            &&& is_text_of(w.name, v.get("name"@))
            &&& is_text_of(w.expires_at, v.get("expiresAt"@))
            &&& is_text_of(w.created_at, v.get("createdAt"@))
            &&& is_text_of(
                if w.code.len() > 0 {
                    Some(w.code)
                } else {
                    None
                },
                v.get("code"@),
            )
            &&& is_integer_of(w.time_limit_minutes, v.get("timeLimitMinutes"@))
            &&& is_integer_of(w.authorized_guest_limit, v.get("authorizedGuestLimit"@))
            &&& is_integer_of(w.authorized_guest_count, v.get("authorizedGuestCount"@))
            &&& is_integer_of(w.data_usage_limit_m_bytes, v.get("dataUsageLimitMBytes"@))
            &&& is_integer_of(w.rx_rate_limit_kbps, v.get("rxRateLimitKbps"@))
            &&& is_integer_of(w.tx_rate_limit_kbps, v.get("txRateLimitKbps"@))
            &&& w.expired <==> v.get("expired"@) == Some(JsonView::Bool(true))
            &&& is_text_of(Some(w.id), v.get("id"@)) || (str_in(v.get("id"@)) is None
                && is_text_of(Some(w.id), v.get("_id"@)))
        }),
{
    assert forall|n: i64, s: Seq<char>| #[trigger]
        crate::text::signed_decimal(n as int) == s implies #[trigger] int_in(
        Some(JsonView::Text(s)),
    ) == Some(n) by {
        crate::text::an_integer_reads_back(n);
    }
    assert forall|n: nat| (#[trigger] crate::text::decimal(n)).len() > 0 by {
        crate::text::a_number_is_written_as_it_reads(n);
    }
}

/// Two documents that agree on a member agree on the field for it, whatever else
/// they hold.
pub proof fn a_field_depends_on_its_own_member_alone(a: JsonView, b: JsonView)
    requires
        voucher_in(a) is Some,
        voucher_in(b) is Some,
    ensures
        ({
            let x = voucher_in(a)->0;
            let y = voucher_in(b)->0;
            &&& a.get("id"@) == b.get("id"@) && a.get("_id"@) == b.get("_id"@) ==> x.id == y.id
            &&& a.get("code"@) == b.get("code"@) ==> x.code == y.code
            &&& a.get("name"@) == b.get("name"@) ==> x.name == y.name
            &&& a.get("timeLimitMinutes"@) == b.get("timeLimitMinutes"@) ==> x.time_limit_minutes
                == y.time_limit_minutes
            &&& a.get("authorizedGuestLimit"@) == b.get("authorizedGuestLimit"@)
                ==> x.authorized_guest_limit == y.authorized_guest_limit
            &&& a.get("authorizedGuestCount"@) == b.get("authorizedGuestCount"@)
                ==> x.authorized_guest_count == y.authorized_guest_count
            &&& a.get("expired"@) == b.get("expired"@) ==> x.expired == y.expired
            &&& a.get("expiresAt"@) == b.get("expiresAt"@) ==> x.expires_at == y.expires_at
            &&& a.get("createdAt"@) == b.get("createdAt"@) ==> x.created_at == y.created_at
            &&& a.get("dataUsageLimitMBytes"@) == b.get("dataUsageLimitMBytes"@)
                ==> x.data_usage_limit_m_bytes == y.data_usage_limit_m_bytes
            &&& a.get("rxRateLimitKbps"@) == b.get("rxRateLimitKbps"@) ==> x.rx_rate_limit_kbps
                == y.rx_rate_limit_kbps
            &&& a.get("txRateLimitKbps"@) == b.get("txRateLimitKbps"@) ==> x.tx_rate_limit_kbps
                == y.tx_rate_limit_kbps
        }),
{
}

/// A document describes a voucher, or a site, exactly where it has an id, under
/// either of the names for it; the plain name is preferred.
pub proof fn an_id_is_what_makes_an_entry(v: JsonView, id: Seq<char>)
    ensures
        voucher_in(v) is Some <==> site_in(v) is Some,
        voucher_in(v) is Some ==> voucher_in(v)->0.id == site_in(v)->0.id,
        id.len() > 0 && v.get("id"@) == Some(JsonView::Text(id)) ==> voucher_in(v) is Some
            && voucher_in(v)->0.id == id,
        id.len() > 0 && v.get("id"@) is None && v.get("_id"@) == Some(JsonView::Text(id))
            ==> voucher_in(v) is Some && voucher_in(v)->0.id == id,
        v.get("id"@) is None && v.get("_id"@) is None ==> voucher_in(v) is None,
        voucher_in(v) matches Some(w) ==> w.id.len() > 0 || v.get("id"@) matches Some(
            JsonView::Number(NumberView::Fraction(_)),
        ) || v.get("_id"@) matches Some(JsonView::Number(NumberView::Fraction(_))),
{
    assert forall|n: nat| (#[trigger] crate::text::decimal(n)).len() > 0 by {
        crate::text::a_number_is_written_as_it_reads(n);
    }
}

/// A site is called by its name, else by its internal reference, else by its
/// description, else by its id.
pub proof fn a_site_is_called_by_the_first_name_it_has(v: JsonView, name: Seq<char>)
    requires
        site_in(v) is Some,
        name.len() > 0,
    ensures
        ({
            let called = site_in(v)->0.name;
            let text = Some(JsonView::Text(name));
            &&& v.get("name"@) == text ==> called == name
            &&& v.get("name"@) is None && v.get("internalReference"@) == text ==> called == name
            &&& v.get("name"@) is None && v.get("internalReference"@) is None && v.get("desc"@)
                == text ==> called == name
            &&& v.get("name"@) is None && v.get("internalReference"@) is None && v.get(
                "desc"@,
            ) is None ==> called == site_in(v)->0.id
        }),
{
}

// ---------------------------------------------------------------------------
// What holds of envelopes
// ---------------------------------------------------------------------------

proof fn lemma_first_list(members: Seq<(Seq<char>, JsonView)>)
    ensures
        (exists|i: int|
            0 <= i < members.len() && (#[trigger] members[i]).1 == JsonView::Array(
                first_list(members),
            ) && forall|j: int| 0 <= j < i ==> (#[trigger] members[j]).1 !is Array) || ((forall|
            j: int,
        |
            0 <= j < members.len() ==> (#[trigger] members[j]).1 !is Array) && first_list(
            members,
        ).len() == 0),
    decreases members.len(),
{
    if members.len() > 0 {
        if let JsonView::Array(items) = members[0].1 {
            assert(members[0].1 == JsonView::Array(first_list(members)));
        } else {
            let rest = members.drop_first();
            lemma_first_list(rest);
            if exists|i: int|
                0 <= i < rest.len() && (#[trigger] rest[i]).1 == JsonView::Array(first_list(rest))
                    && forall|j: int| 0 <= j < i ==> (#[trigger] rest[j]).1 !is Array {
                let i = choose|i: int|
                    0 <= i < rest.len() && (#[trigger] rest[i]).1 == JsonView::Array(
                        first_list(rest),
                    ) && forall|j: int| 0 <= j < i ==> (#[trigger] rest[j]).1 !is Array;
                assert(members[i + 1] == rest[i]);
                assert forall|j: int| 0 <= j < i + 1 implies (#[trigger] members[j]).1 !is Array by {
                    if j > 0 {
                        assert(members[j] == rest[j - 1]);
                    }
                }
            } else {
                assert forall|j: int| 0 <= j < members.len() implies (
                #[trigger] members[j]).1 !is Array by {
                    if j > 0 {
                        assert(members[j] == rest[j - 1]);
                    }
                }
            }
        }
    }
}

/// Whether a member is there and is a list.
pub open spec fn is_list(member: Option<JsonView>) -> bool {
    member is Some && member->0 is Array
}

/// The list of a document is the document itself where it is a list, else its
/// `data`, else its `vouchers`, else its first member that is a list, and otherwise
/// empty.
pub proof fn a_list_is_found_where_it_stands(v: JsonView, items: Seq<JsonView>)
    ensures
        v == JsonView::Array(items) ==> list_in(v) == items,
        v.get("data"@) == Some(JsonView::Array(items)) ==> list_in(v) == items,
        !is_list(v.get("data"@)) && v.get("vouchers"@) == Some(JsonView::Array(items)) ==> list_in(
            v,
        ) == items,
        !(v is Array) && !(v is Object) ==> list_in(v).len() == 0,
        v matches JsonView::Object(members) ==> {
            ||| is_list(v.get("data"@))
            ||| is_list(v.get("vouchers"@))
            ||| exists|i: int|
                0 <= i < members.len() && (#[trigger] members[i]).1 == JsonView::Array(list_in(v))
                    && forall|j: int| 0 <= j < i ==> (#[trigger] members[j]).1 !is Array
            ||| list_in(v).len() == 0 && forall|j: int|
                0 <= j < members.len() ==> (#[trigger] members[j]).1 !is Array
        },
{
    if let JsonView::Object(members) = v {
        lemma_first_list(members);
        crate::json::a_member_is_found_by_its_name(v, "data"@);
        crate::json::a_member_is_found_by_its_name(v, "vouchers"@);
    }
}

/// Every entry that has an id is listed, in the order of the document and once for
/// each time it occurs there, and nothing else is.
pub proof fn a_list_is_its_entries_in_their_order(a: Seq<JsonView>, b: Seq<JsonView>, v: JsonView)
    ensures
        vouchers_in(a + b) == vouchers_in(a) + vouchers_in(b),
        sites_in(a + b) == sites_in(a) + sites_in(b),
        vouchers_in(seq![v]) == (match voucher_in(v) {
            Some(w) => seq![w],
            None => seq![],
        }),
        sites_in(seq![v]) == (match site_in(v) {
            Some(w) => seq![w],
            None => seq![],
        }),
    decreases b.len(),
{
    assert(seq![v].drop_last() =~= seq![]);
    assert(sites_in(seq![v].drop_last()) =~= seq![]);
    assert(vouchers_in(seq![v].drop_last()) =~= seq![]);
    reveal_with_fuel(Seq::filter_map, 2);
    assert(vouchers_in(seq![v]) =~= (match voucher_in(v) {
        Some(w) => seq![w],
        None => seq![],
    }));
    assert(sites_in(seq![v]) =~= (match site_in(v) {
        Some(w) => seq![w],
        None => seq![],
    }));
    if b.len() == 0 {
        assert(a + b =~= a);
        assert(vouchers_in(b) =~= seq![]);
        assert(sites_in(b) =~= seq![]);
        assert(vouchers_in(a) + vouchers_in(b) =~= vouchers_in(a));
        assert(sites_in(a) + sites_in(b) =~= sites_in(a));
    } else {
        a_list_is_its_entries_in_their_order(a, b.drop_last(), v);
        assert((a + b).drop_last() =~= a + b.drop_last());
        assert((a + b).last() == b.last());
        assert(vouchers_in(a + b) =~= vouchers_in(a) + vouchers_in(b));
        assert(sites_in(a + b) =~= sites_in(a) + sites_in(b));
    }
}

} // verus!
