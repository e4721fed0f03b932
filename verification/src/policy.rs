//! What a voucher request may ask for.

use vstd::prelude::*;
use vstd::string::*;

use crate::error::{ErrorView, ProxyError, ProxyResult};
use crate::json::{Json, JsonNumber, JsonView, NumberView};
use crate::text::{quote, same, show, show_signed, show_usize, trim};

verus! {

/// Upper bound the Integration API itself enforces on `timeLimitMinutes`.
pub const UNIFI_MAX_TIME_LIMIT_MINUTES: u64 = 1_000_000;

/// The voucher-creation body, as a closed set of fields.
///
/// Client JSON is parsed into this struct and re-serialised before it goes
/// upstream — the proxy never forwards bytes it did not understand. A client
/// cannot smuggle an extra property past the proxy in the hope that the
/// controller honours it.
#[derive(Debug)]
pub struct CreateVoucherRequest {
    pub name: String,
    pub count: u32,
    pub time_limit_minutes: u64,
    pub authorized_guest_limit: u32,
    pub data_usage_limit_m_bytes: Option<u64>,
    pub rx_rate_limit_kbps: Option<u64>,
    pub tx_rate_limit_kbps: Option<u64>,
}

/// A voucher request as the contracts speak of it.
pub ghost struct RequestView {
    pub name: Seq<char>,
    pub count: u32,
    pub time_limit_minutes: u64,
    pub authorized_guest_limit: u32,
    pub data_usage_limit_m_bytes: Option<u64>,
    pub rx_rate_limit_kbps: Option<u64>,
    pub tx_rate_limit_kbps: Option<u64>,
}

impl View for CreateVoucherRequest {
    type V = RequestView;

    open spec fn view(&self) -> RequestView {
        RequestView {
            name: self.name@,
            count: self.count,
            time_limit_minutes: self.time_limit_minutes,
            authorized_guest_limit: self.authorized_guest_limit,
            data_usage_limit_m_bytes: self.data_usage_limit_m_bytes,
            rx_rate_limit_kbps: self.rx_rate_limit_kbps,
            tx_rate_limit_kbps: self.tx_rate_limit_kbps,
        }
    }
}

/// What a field that is left out stands for.
pub fn one() -> (r: u32)
    ensures
        r == 1,
{
    1
}

/// The ceilings that apply to one particular caller.
#[derive(Debug, Clone, Copy)]
pub struct Ceilings {
    pub max_vouchers: u32,
    pub max_validity_minutes: u64,
}

// ---------------------------------------------------------------------------
// Reading single values
// ---------------------------------------------------------------------------

/// How a value that was not expected is described.
pub open spec fn described(v: JsonView) -> Seq<char> {
    match v {
        JsonView::Null => "null"@,
        JsonView::Bool(true) => "boolean `true`"@,
        JsonView::Bool(false) => "boolean `false`"@,
        JsonView::Number(NumberView::Unsigned(n)) => "integer `"@ + crate::text::decimal(n as nat)
            + "`"@,
        JsonView::Number(NumberView::Negative(n)) => "integer `"@ + crate::text::signed_decimal(
            n as int,
        ) + "`"@,
        JsonView::Number(NumberView::Fraction(t)) => "floating point `"@ + t + "`"@,
        JsonView::Text(s) => "string "@ + crate::text::quoted(s),
        JsonView::Array(_) => "sequence"@,
        JsonView::Object(_) => "map"@,
    }
}

/// Why a value of the wrong type is not acceptable.
pub open spec fn wrong_type(v: JsonView, expected: Seq<char>) -> Seq<char> {
    "invalid type: "@ + described(v) + ", expected "@ + expected
}

/// Why a value of the right type is not acceptable.
pub open spec fn wrong_value(v: JsonView, expected: Seq<char>) -> Seq<char> {
    "invalid value: "@ + described(v) + ", expected "@ + expected
}

fn describe(v: &Json) -> (r: String)
    ensures
        r@ == described(v@),
{
    match v {
        Json::Null => "null".to_owned(),
        Json::Bool(b) => if *b {
            "boolean `true`".to_owned()
        } else {
            "boolean `false`".to_owned()
        },
        Json::Number(JsonNumber::Unsigned(n)) => {
            let mut m = "integer `".to_owned();
            m.append(show(*n).as_str());
            m.append("`");
            m
        },
        Json::Number(JsonNumber::Negative(n)) => {
            let mut m = "integer `".to_owned();
            m.append(show_signed(*n).as_str());
            m.append("`");
            m
        },
        Json::Number(JsonNumber::Fraction(f)) => {
            let mut m = "floating point `".to_owned();
            m.append(f.text());
            m.append("`");
            m
        },
        Json::Text(s) => {
            let mut m = "string ".to_owned();
            m.append(quote(s.as_str()).as_str());
            m
        },
        Json::Array(_) => "sequence".to_owned(),
        Json::Object(_) => "map".to_owned(),
    }
}

fn explain_type(v: &Json, expected: &str) -> (r: String)
    ensures
        r@ == wrong_type(v@, expected@),
{
    let mut m = "invalid type: ".to_owned();
    m.append(describe(v).as_str());
    m.append(", expected ");
    m.append(expected);
    m
}

fn explain_value(v: &Json, expected: &str) -> (r: String)
    ensures
        r@ == wrong_value(v@, expected@),
{
    let mut m = "invalid value: ".to_owned();
    m.append(describe(v).as_str());
    m.append(", expected ");
    m.append(expected);
    m
}

/// A result whose error, a text, is taken by its view.
pub open spec fn told<T>(r: Result<T, String>) -> Result<T, Seq<char>> {
    match r {
        Ok(v) => Ok(v),
        Err(why) => Err(why@),
    }
}

/// What a document says where a text is expected.
pub open spec fn text_in(v: JsonView) -> Result<Seq<char>, Seq<char>> {
    match v {
        JsonView::Text(s) => Ok(s),
        _ => Err(wrong_type(v, "a string"@)),
    }
}

/// What a document says where an unsigned integer of 64 bits is expected.
pub open spec fn long_in(v: JsonView) -> Result<u64, Seq<char>> {
    match v {
        JsonView::Number(NumberView::Unsigned(n)) => Ok(n),
        JsonView::Number(NumberView::Negative(n)) => if n >= 0 {
            Ok(n as u64)
        } else {
            Err(wrong_value(v, "u64"@))
        },
        _ => Err(wrong_type(v, "u64"@)),
    }
}

/// What a document says where an unsigned integer of 32 bits is expected.
pub open spec fn short_in(v: JsonView) -> Result<u32, Seq<char>> {
    match v {
        JsonView::Number(NumberView::Unsigned(n)) => if n <= u32::MAX {
            Ok(n as u32)
        } else {
            Err(wrong_value(v, "u32"@))
        },
        JsonView::Number(NumberView::Negative(n)) => if 0 <= n <= u32::MAX {
            Ok(n as u32)
        } else {
            Err(wrong_value(v, "u32"@))
        },
        _ => Err(wrong_type(v, "u32"@)),
    }
}

/// What a document says where an integer, or nothing, is expected.
pub open spec fn optional_in(v: JsonView) -> Result<Option<u64>, Seq<char>> {
    match v {
        JsonView::Null => Ok(None),
        _ => match long_in(v) {
            Ok(n) => Ok(Some(n)),
            Err(why) => Err(why),
        },
    }
}

fn read_text(v: &Json) -> (r: Result<String, String>)
    ensures
        (match r {
            Ok(s) => Ok(s@),
            Err(why) => Err(why@),
        }) == text_in(v@),
{
    match v {
        Json::Text(s) => Ok(s.as_str().to_owned()),
        _ => Err(explain_type(v, "a string")),
    }
}

fn read_long(v: &Json) -> (r: Result<u64, String>)
    ensures
        told(r) == long_in(v@),
{
    match v {
        Json::Number(JsonNumber::Unsigned(n)) => Ok(*n),
        Json::Number(JsonNumber::Negative(n)) => if *n >= 0 {
            Ok(*n as u64)
        } else {
            Err(explain_value(v, "u64"))
        },
        _ => Err(explain_type(v, "u64")),
    }
}

fn read_short(v: &Json) -> (r: Result<u32, String>)
    ensures
        told(r) == short_in(v@),
{
    match v {
        Json::Number(JsonNumber::Unsigned(n)) => if *n <= u32::MAX as u64 {
            Ok(*n as u32)
        } else {
            Err(explain_value(v, "u32"))
        },
        Json::Number(JsonNumber::Negative(n)) => if 0 <= *n && *n <= u32::MAX as i64 {
            Ok(*n as u32)
        } else {
            Err(explain_value(v, "u32"))
        },
        _ => Err(explain_type(v, "u32")),
    }
}

fn read_optional(v: &Json) -> (r: Result<Option<u64>, String>)
    ensures
        told(r) == optional_in(v@),
{
    match v {
        Json::Null => Ok(None),
        _ => match read_long(v) {
            Ok(n) => Ok(Some(n)),
            Err(why) => Err(why),
        },
    }
}

// ---------------------------------------------------------------------------
// Reading a request
// ---------------------------------------------------------------------------

/// The fields of a request, in the order in which they are declared.
#[derive(Debug, Clone, Copy, PartialEq, Eq, Structural)]
pub enum Field {
    Name,
    Count,
    TimeLimitMinutes,
    AuthorizedGuestLimit,
    DataUsageLimitMBytes,
    RxRateLimitKbps,
    TxRateLimitKbps,
}

impl Field {
    /// The name of a field on the wire.
    pub open spec fn name(self) -> Seq<char> {
        match self {
            Field::Name => "name"@,
            Field::Count => "count"@,
            Field::TimeLimitMinutes => "timeLimitMinutes"@,
            Field::AuthorizedGuestLimit => "authorizedGuestLimit"@,
            Field::DataUsageLimitMBytes => "dataUsageLimitMBytes"@,
            Field::RxRateLimitKbps => "rxRateLimitKbps"@,
            Field::TxRateLimitKbps => "txRateLimitKbps"@,
        }
    }

    /// The name of a field on the wire.
    pub fn as_str(self) -> (r: &'static str)
        ensures
            r@ == self.name(),
    {
        match self {
            Field::Name => "name",
            Field::Count => "count",
            Field::TimeLimitMinutes => "timeLimitMinutes",
            Field::AuthorizedGuestLimit => "authorizedGuestLimit",
            Field::DataUsageLimitMBytes => "dataUsageLimitMBytes",
            Field::RxRateLimitKbps => "rxRateLimitKbps",
            Field::TxRateLimitKbps => "txRateLimitKbps",
        }
    }
}

/// The field that a member's name stands for, if any.
pub open spec fn field_named(key: Seq<char>) -> Option<Field> {
    if key == "name"@ {
        Some(Field::Name)
    } else if key == "count"@ {
        Some(Field::Count)
    } else if key == "timeLimitMinutes"@ {
        Some(Field::TimeLimitMinutes)
    } else if key == "authorizedGuestLimit"@ {
        Some(Field::AuthorizedGuestLimit)
    } else if key == "dataUsageLimitMBytes"@ {
        Some(Field::DataUsageLimitMBytes)
    } else if key == "rxRateLimitKbps"@ {
        Some(Field::RxRateLimitKbps)
    } else if key == "txRateLimitKbps"@ {
        Some(Field::TxRateLimitKbps)
    } else {
        None
    }
}

fn field_of(key: &str) -> (r: Option<Field>)
    ensures
        r == field_named(key@),
{
    if same(key, "name") {
        Some(Field::Name)
    } else if same(key, "count") {
        Some(Field::Count)
    } else if same(key, "timeLimitMinutes") {
        Some(Field::TimeLimitMinutes)
    } else if same(key, "authorizedGuestLimit") {
        Some(Field::AuthorizedGuestLimit)
    } else if same(key, "dataUsageLimitMBytes") {
        Some(Field::DataUsageLimitMBytes)
    } else if same(key, "rxRateLimitKbps") {
        Some(Field::RxRateLimitKbps)
    } else if same(key, "txRateLimitKbps") {
        Some(Field::TxRateLimitKbps)
    } else {
        None
    }
}

/// Why a member that stands for no field is not acceptable.
pub open spec fn unknown_field(key: Seq<char>) -> Seq<char> {
    "unknown field `"@ + key
        + "`, expected one of `name`, `count`, `timeLimitMinutes`, `authorizedGuestLimit`, `dataUsageLimitMBytes`, `rxRateLimitKbps`, `txRateLimitKbps`"@
}

/// Why a second member for one field is not acceptable.
pub open spec fn duplicate_field(f: Field) -> Seq<char> {
    "duplicate field `"@ + f.name() + "`"@
}

/// Why a request that lacks a field is not acceptable.
pub open spec fn missing_field(f: Field) -> Seq<char> {
    "missing field `"@ + f.name() + "`"@
}

fn explain_unknown(key: &str) -> (r: String)
    ensures
        r@ == unknown_field(key@),
{
    let mut m = "unknown field `".to_owned();
    m.append(key);
    m.append(
        "`, expected one of `name`, `count`, `timeLimitMinutes`, `authorizedGuestLimit`, `dataUsageLimitMBytes`, `rxRateLimitKbps`, `txRateLimitKbps`",
    );
    m
}

fn explain_duplicate(f: Field) -> (r: String)
    ensures
        r@ == duplicate_field(f),
{
    let mut m = "duplicate field `".to_owned();
    m.append(f.as_str());
    m.append("`");
    m
}

fn explain_missing(f: Field) -> (r: String)
    ensures
        r@ == missing_field(f),
{
    let mut m = "missing field `".to_owned();
    m.append(f.as_str());
    m.append("`");
    m
}

/// What was read of a request so far.
struct Draft {
    name: Option<String>,
    count: Option<u32>,
    time_limit_minutes: Option<u64>,
    authorized_guest_limit: Option<u32>,
    data_usage_limit_m_bytes: Option<Option<u64>>,
    rx_rate_limit_kbps: Option<Option<u64>>,
    tx_rate_limit_kbps: Option<Option<u64>>,
}

/// A partly read request as the contracts speak of it.
pub ghost struct DraftView {
    pub name: Option<Seq<char>>,
    pub count: Option<u32>,
    pub time_limit_minutes: Option<u64>,
    pub authorized_guest_limit: Option<u32>,
    pub data_usage_limit_m_bytes: Option<Option<u64>>,
    pub rx_rate_limit_kbps: Option<Option<u64>>,
    pub tx_rate_limit_kbps: Option<Option<u64>>,
}

impl Draft {
    spec fn view(&self) -> DraftView {
        DraftView {
            name: match self.name {
                Some(s) => Some(s@),
                None => None,
            },
            count: self.count,
            time_limit_minutes: self.time_limit_minutes,
            authorized_guest_limit: self.authorized_guest_limit,
            data_usage_limit_m_bytes: self.data_usage_limit_m_bytes,
            rx_rate_limit_kbps: self.rx_rate_limit_kbps,
            tx_rate_limit_kbps: self.tx_rate_limit_kbps,
        }
    }

    fn new() -> (r: Self)
        ensures
            r@ == DraftView::blank(),
    {
        Draft {
            name: None,
            count: None,
            time_limit_minutes: None,
            authorized_guest_limit: None,
            data_usage_limit_m_bytes: None,
            rx_rate_limit_kbps: None,
            tx_rate_limit_kbps: None,
        }
    }
}

impl DraftView {
    /// A request of which nothing was read.
    pub open spec fn blank() -> DraftView {
        DraftView {
            name: None,
            count: None,
            time_limit_minutes: None,
            authorized_guest_limit: None,
            data_usage_limit_m_bytes: None,
            rx_rate_limit_kbps: None,
            tx_rate_limit_kbps: None,
        }
    }

    /// Whether a field was read.
    pub open spec fn has(self, f: Field) -> bool {
        match f {
            Field::Name => self.name is Some,
            Field::Count => self.count is Some,
            Field::TimeLimitMinutes => self.time_limit_minutes is Some,
            Field::AuthorizedGuestLimit => self.authorized_guest_limit is Some,
            Field::DataUsageLimitMBytes => self.data_usage_limit_m_bytes is Some,
            Field::RxRateLimitKbps => self.rx_rate_limit_kbps is Some,
            Field::TxRateLimitKbps => self.tx_rate_limit_kbps is Some,
        }
    }

    /// The draft after one member more, or why that member is not acceptable.
    pub open spec fn with(self, key: Seq<char>, v: JsonView) -> Result<DraftView, Seq<char>> {
        match field_named(key) {
            None => Err(unknown_field(key)),
            Some(f) => if self.has(f) {
                Err(duplicate_field(f))
            } else {
                match f {
                    Field::Name => match text_in(v) {
                        Ok(x) => Ok(DraftView { name: Some(x), ..self }),
                        Err(why) => Err(why),
                    },
                    Field::Count => match short_in(v) {
                        Ok(x) => Ok(DraftView { count: Some(x), ..self }),
                        Err(why) => Err(why),
                    },
                    Field::TimeLimitMinutes => match long_in(v) {
                        Ok(x) => Ok(DraftView { time_limit_minutes: Some(x), ..self }),
                        Err(why) => Err(why),
                    },
                    Field::AuthorizedGuestLimit => match short_in(v) {
                        Ok(x) => Ok(DraftView { authorized_guest_limit: Some(x), ..self }),
                        Err(why) => Err(why),
                    },
                    Field::DataUsageLimitMBytes => match optional_in(v) {
                        Ok(x) => Ok(DraftView { data_usage_limit_m_bytes: Some(x), ..self }),
                        Err(why) => Err(why),
                    },
                    Field::RxRateLimitKbps => match optional_in(v) {
                        Ok(x) => Ok(DraftView { rx_rate_limit_kbps: Some(x), ..self }),
                        Err(why) => Err(why),
                    },
                    Field::TxRateLimitKbps => match optional_in(v) {
                        Ok(x) => Ok(DraftView { tx_rate_limit_kbps: Some(x), ..self }),
                        Err(why) => Err(why),
                    },
                }
            },
        }
    }

    /// The draft after some members more, read in their order, or why the first
    /// of them that is not acceptable is not.
    pub open spec fn with_all(self, members: Seq<(Seq<char>, JsonView)>) -> Result<
        DraftView,
        Seq<char>,
    >
        decreases members.len(),
    {
        if members.len() == 0 {
            Ok(self)
        } else {
            match self.with(members[0].0, members[0].1) {
                Ok(next) => next.with_all(members.drop_first()),
                Err(why) => Err(why),
            }
        }
    }

    /// The request that a draft makes once there is no more to read, or which
    /// field it lacks.
    pub open spec fn finished(self) -> Result<RequestView, Seq<char>> {
        if self.name is None {
            Err(missing_field(Field::Name))
        } else if self.time_limit_minutes is None {
            Err(missing_field(Field::TimeLimitMinutes))
        } else {
            Ok(
                RequestView {
                    name: self.name->0,
                    count: or_one(self.count),
                    time_limit_minutes: self.time_limit_minutes->0,
                    authorized_guest_limit: or_one(self.authorized_guest_limit),
                    data_usage_limit_m_bytes: or_none(self.data_usage_limit_m_bytes),
                    rx_rate_limit_kbps: or_none(self.rx_rate_limit_kbps),
                    tx_rate_limit_kbps: or_none(self.tx_rate_limit_kbps),
                },
            )
        }
    }
}

/// A number that stands for one where it is left out.
pub open spec fn or_one(n: Option<u32>) -> u32 {
    match n {
        Some(n) => n,
        None => 1,
    }
}

/// A limit that is absent where it is left out.
pub open spec fn or_none(n: Option<Option<u64>>) -> Option<u64> {
    match n {
        Some(n) => n,
        None => None,
    }
}

fn with_member(d: Draft, key: &str, v: &Json) -> (r: Result<Draft, String>)
    ensures
        (match r {
            Ok(next) => Ok(next@),
            Err(why) => Err(why@),
        }) == d@.with(key@, v@),
{
    match field_of(key) {
        None => Err(explain_unknown(key)),
        Some(Field::Name) => if d.name.is_some() {
            Err(explain_duplicate(Field::Name))
        } else {
            match read_text(v) {
                Ok(x) => Ok(Draft { name: Some(x), ..d }),
                Err(why) => Err(why),
            }
        },
        Some(Field::Count) => if d.count.is_some() {
            Err(explain_duplicate(Field::Count))
        } else {
            match read_short(v) {
                Ok(x) => Ok(Draft { count: Some(x), ..d }),
                Err(why) => Err(why),
            }
        },
        Some(Field::TimeLimitMinutes) => if d.time_limit_minutes.is_some() {
            Err(explain_duplicate(Field::TimeLimitMinutes))
        } else {
            match read_long(v) {
                Ok(x) => Ok(Draft { time_limit_minutes: Some(x), ..d }),
                Err(why) => Err(why),
            }
        },
        Some(Field::AuthorizedGuestLimit) => if d.authorized_guest_limit.is_some() {
            Err(explain_duplicate(Field::AuthorizedGuestLimit))
        } else {
            match read_short(v) {
                Ok(x) => Ok(Draft { authorized_guest_limit: Some(x), ..d }),
                Err(why) => Err(why),
            }
        },
        Some(Field::DataUsageLimitMBytes) => if d.data_usage_limit_m_bytes.is_some() {
            Err(explain_duplicate(Field::DataUsageLimitMBytes))
        } else {
            match read_optional(v) {
                Ok(x) => Ok(Draft { data_usage_limit_m_bytes: Some(x), ..d }),
                Err(why) => Err(why),
            }
        },
        Some(Field::RxRateLimitKbps) => if d.rx_rate_limit_kbps.is_some() {
            Err(explain_duplicate(Field::RxRateLimitKbps))
        } else {
            match read_optional(v) {
                Ok(x) => Ok(Draft { rx_rate_limit_kbps: Some(x), ..d }),
                Err(why) => Err(why),
            }
        },
        Some(Field::TxRateLimitKbps) => if d.tx_rate_limit_kbps.is_some() {
            Err(explain_duplicate(Field::TxRateLimitKbps))
        } else {
            match read_optional(v) {
                Ok(x) => Ok(Draft { tx_rate_limit_kbps: Some(x), ..d }),
                Err(why) => Err(why),
            }
        },
    }
}

fn finish(d: Draft) -> (r: Result<CreateVoucherRequest, String>)
    ensures
        (match r {
            Ok(request) => Ok(request@),
            Err(why) => Err(why@),
        }) == d@.finished(),
{
    let name = match d.name {
        Some(name) => name,
        None => return Err(explain_missing(Field::Name)),
    };
    let time_limit_minutes: u64 = match d.time_limit_minutes {
        Some(n) => n,
        None => return Err(explain_missing(Field::TimeLimitMinutes)),
    };
    Ok(
        CreateVoucherRequest {
            name,
            count: match d.count {
                Some(n) => n,
                None => one(),
            },
            time_limit_minutes,
            authorized_guest_limit: match d.authorized_guest_limit {
                Some(n) => n,
                None => one(),
            },
            data_usage_limit_m_bytes: match d.data_usage_limit_m_bytes {
                Some(n) => n,
                None => None,
            },
            rx_rate_limit_kbps: match d.rx_rate_limit_kbps {
                Some(n) => n,
                None => None,
            },
            tx_rate_limit_kbps: match d.tx_rate_limit_kbps {
                Some(n) => n,
                None => None,
            },
        },
    )
}

/// What an object says where a voucher request is expected.
pub open spec fn request_in_object(members: Seq<(Seq<char>, JsonView)>) -> Result<
    RequestView,
    Seq<char>,
> {
    match DraftView::blank().with_all(members) {
        Ok(d) => d.finished(),
        Err(why) => Err(why),
    }
}

fn read_object(members: &Vec<(String, Json)>) -> (r: Result<CreateVoucherRequest, String>)
    ensures
        (match r {
            Ok(request) => Ok(request@),
            Err(why) => Err(why@),
        }) == request_in_object(crate::json::member_views(members@)),
{
    let ghost all = crate::json::member_views(members@);
    let mut d = Draft::new();
    let mut i: usize = 0;
    assert(all.skip(0) =~= all);
    while i < members.len()
        invariant
            i <= members@.len(),
            all == crate::json::member_views(members@),
            DraftView::blank().with_all(all) == d@.with_all(all.skip(i as int)),
        decreases members.len() - i,
    {
        let ghost rest = all.skip(i as int);
        assert(rest[0] == (members@[i as int].0@, members@[i as int].1@));
        assert(rest.drop_first() =~= all.skip(i + 1));
        match with_member(d, members[i].0.as_str(), &members[i].1) {
            Ok(next) => {
                d = next;
            },
            Err(why) => return Err(why),
        }
        i += 1;
    }
    finish(d)
}

/// Why a list that ends before its `i`-th element is not acceptable.
pub open spec fn too_short(i: nat) -> Seq<char> {
    "invalid length "@ + crate::text::decimal(i)
        + ", expected struct CreateVoucherRequest with 7 elements"@
}

/// Why a list with `n` elements is not acceptable.
pub open spec fn too_long(n: nat) -> Seq<char> {
    "invalid length "@ + crate::text::decimal(n) + ", expected fewer elements in array"@
}

fn explain_short(i: u64) -> (r: String)
    ensures
        r@ == too_short(i as nat),
{
    let mut m = "invalid length ".to_owned();
    m.append(show(i).as_str());
    m.append(", expected struct CreateVoucherRequest with 7 elements");
    m
}

fn explain_long(n: usize) -> (r: String)
    ensures
        r@ == too_long(n as nat),
{
    let mut m = "invalid length ".to_owned();
    m.append(show_usize(n).as_str());
    m.append(", expected fewer elements in array");
    m
}

/// What a list says where a voucher request is expected: the fields in the order
/// in which they are declared, where the two with a default may be missing only
/// at the end.
pub open spec fn request_in_list(items: Seq<JsonView>) -> Result<RequestView, Seq<char>> {
    let name = if items.len() > 0 {
        text_in(items[0])
    } else {
        Err(too_short(0))
    };
    let count = if items.len() > 1 {
        short_in(items[1])
    } else {
        Ok(1u32)
    };
    let minutes = if items.len() > 2 {
        long_in(items[2])
    } else {
        Err(too_short(2))
    };
    let guests = if items.len() > 3 {
        short_in(items[3])
    } else {
        Ok(1u32)
    };
    let data = if items.len() > 4 {
        optional_in(items[4])
    } else {
        Err(too_short(4))
    };
    let rx = if items.len() > 5 {
        optional_in(items[5])
    } else {
        Err(too_short(5))
    };
    let tx = if items.len() > 6 {
        optional_in(items[6])
    } else {
        Err(too_short(6))
    };
    if name is Err {
        Err(name->Err_0)
    } else if count is Err {
        Err(count->Err_0)
    } else if minutes is Err {
        Err(minutes->Err_0)
    } else if guests is Err {
        Err(guests->Err_0)
    } else if data is Err {
        Err(data->Err_0)
    } else if rx is Err {
        Err(rx->Err_0)
    } else if tx is Err {
        Err(tx->Err_0)
    } else if items.len() > 7 {
        Err(too_long(items.len()))
    } else {
        Ok(
            RequestView {
                name: name->Ok_0,
                count: count->Ok_0,
                time_limit_minutes: minutes->Ok_0,
                authorized_guest_limit: guests->Ok_0,
                data_usage_limit_m_bytes: data->Ok_0,
                rx_rate_limit_kbps: rx->Ok_0,
                tx_rate_limit_kbps: tx->Ok_0,
            },
        )
    }
}

fn read_list(items: &Vec<Json>) -> (r: Result<CreateVoucherRequest, String>)
    ensures
        (match r {
            Ok(request) => Ok(request@),
            Err(why) => Err(why@),
        }) == request_in_list(crate::json::views(items@)),
{
    if items.len() == 0 {
        return Err(explain_short(0));
    }
    let name = match read_text(&items[0]) {
        Ok(s) => s,
        Err(why) => return Err(why),
    };
    let mut count: u32 = 1;
    if items.len() > 1 {
        match read_short(&items[1]) {
            Ok(n) => {
                count = n;
            },
            Err(why) => return Err(why),
        }
    }
    if items.len() <= 2 {
        return Err(explain_short(2));
    }
    let time_limit_minutes: u64 = match read_long(&items[2]) {
        Ok(n) => n,
        Err(why) => return Err(why),
    };
    let mut authorized_guest_limit: u32 = 1;
    if items.len() > 3 {
        match read_short(&items[3]) {
            Ok(n) => {
                authorized_guest_limit = n;
            },
            Err(why) => return Err(why),
        }
    }
    if items.len() <= 4 {
        return Err(explain_short(4));
    }
    let data_usage_limit_m_bytes: Option<u64> = match read_optional(&items[4]) {
        Ok(n) => n,
        Err(why) => return Err(why),
    };
    if items.len() <= 5 {
        return Err(explain_short(5));
    }
    let rx_rate_limit_kbps: Option<u64> = match read_optional(&items[5]) {
        Ok(n) => n,
        Err(why) => return Err(why),
    };
    if items.len() <= 6 {
        return Err(explain_short(6));
    }
    let tx_rate_limit_kbps: Option<u64> = match read_optional(&items[6]) {
        Ok(n) => n,
        Err(why) => return Err(why),
    };
    if items.len() > 7 {
        return Err(explain_long(items.len()));
    }
    Ok(
        CreateVoucherRequest {
            name,
            count,
            time_limit_minutes,
            authorized_guest_limit,
            data_usage_limit_m_bytes,
            rx_rate_limit_kbps,
            tx_rate_limit_kbps,
        },
    )
}

/// What a document says where a voucher request is expected, or why it is not
/// acceptable as one.
pub open spec fn request_in(v: JsonView) -> Result<RequestView, Seq<char>> {
    match v {
        JsonView::Object(members) => request_in_object(members),
        JsonView::Array(items) => request_in_list(items),
        _ => Err(wrong_type(v, "struct CreateVoucherRequest"@)),
    }
}

impl CreateVoucherRequest {
    /// Reads a client's request: every member has to be a known field of the
    /// right type, none may occur twice, and a name and a time limit are needed.
    pub fn parse(body: &Json) -> (r: ProxyResult<Self>)
        ensures
            match request_in(body@) {
                Ok(request) => r is Ok && r->Ok_0@ == request,
                Err(why) => r is Err && r->Err_0@ == ErrorView::BadRequest(
                    "voucher request is not acceptable: "@ + why,
                ),
            },
    {
        proof {
            crate::json::lemma_container_views(*body);
        }
        let read = match body {
            Json::Object(members) => read_object(members),
            Json::Array(items) => read_list(items),
            _ => Err(explain_type(body, "struct CreateVoucherRequest")),
        };
        match read {
            Ok(request) => Ok(request),
            Err(why) => {
                let mut m = "voucher request is not acceptable: ".to_owned();
                m.append(why.as_str());
                Err(ProxyError::BadRequest(m))
            },
        }
    }
}

// ---------------------------------------------------------------------------
// Ceilings
// ---------------------------------------------------------------------------

/// The longest validity that a request may ask for.
pub open spec fn validity_ceiling(c: Ceilings) -> u64 {
    if c.max_validity_minutes < UNIFI_MAX_TIME_LIMIT_MINUTES {
        c.max_validity_minutes
    } else {
        UNIFI_MAX_TIME_LIMIT_MINUTES
    }
}

/// Why a request is refused to a caller with some ceilings; `None` where it is
/// not.
pub open spec fn refusal(r: RequestView, c: Ceilings) -> Option<ErrorView> {
    if crate::text::trimmed(r.name).len() == 0 {
        Some(ErrorView::BadRequest("voucher name must not be empty"@))
    } else if r.name.len() > 128 {
        Some(ErrorView::BadRequest("voucher name is too long"@))
    } else if r.count == 0 {
        Some(ErrorView::BadRequest("count must be at least 1"@))
    } else if r.count > c.max_vouchers {
        Some(
            ErrorView::Forbidden(
                "this token may create at most "@ + crate::text::decimal(c.max_vouchers as nat)
                    + " voucher(s) per request (asked for "@ + crate::text::decimal(r.count as nat)
                    + ")"@,
            ),
        )
    } else if r.time_limit_minutes == 0 {
        Some(ErrorView::BadRequest("timeLimitMinutes must be at least 1"@))
    } else if r.time_limit_minutes > validity_ceiling(c) {
        Some(
            ErrorView::Forbidden(
                "this token may issue vouchers valid for at most "@ + crate::text::decimal(
                    validity_ceiling(c) as nat,
                ) + " minute(s) (asked for "@ + crate::text::decimal(r.time_limit_minutes as nat)
                    + ")"@,
            ),
        )
    } else if r.authorized_guest_limit == 0 || r.authorized_guest_limit > 10_000 {
        Some(ErrorView::BadRequest("authorizedGuestLimit is out of range"@))
    } else {
        None
    }
}

/// A limit as a member of the body that goes upstream: none where it is absent.
pub open spec fn optional_member(f: Field, n: Option<u64>) -> Seq<(Seq<char>, JsonView)> {
    match n {
        Some(n) => seq![(f.name(), JsonView::Number(NumberView::Unsigned(n)))],
        None => seq![],
    }
}

/// A number as a member of the body that goes upstream.
pub open spec fn number_member(f: Field, n: u64) -> (Seq<char>, JsonView) {
    (f.name(), JsonView::Number(NumberView::Unsigned(n)))
}

/// The body that goes upstream for a request.
pub open spec fn upstream_members(r: RequestView) -> Seq<(Seq<char>, JsonView)> {
    seq![
        number_member(Field::AuthorizedGuestLimit, r.authorized_guest_limit as u64),
        number_member(Field::Count, r.count as u64),
    ] + optional_member(Field::DataUsageLimitMBytes, r.data_usage_limit_m_bytes) + seq![
        (Field::Name.name(), JsonView::Text(r.name)),
    ] + optional_member(Field::RxRateLimitKbps, r.rx_rate_limit_kbps) + seq![
        number_member(Field::TimeLimitMinutes, r.time_limit_minutes),
    ] + optional_member(Field::TxRateLimitKbps, r.tx_rate_limit_kbps)
}

fn add_number(members: &mut Vec<(String, Json)>, f: Field, n: u64)
    ensures
        crate::json::member_views(final(members)@) == crate::json::member_views(
            old(members)@,
        ).push(number_member(f, n)),
{
    members.push((f.as_str().to_owned(), Json::integer(n)));
    proof {
        assert(crate::json::member_views(members@) =~= crate::json::member_views(
            old(members)@,
        ).push(number_member(f, n)));
    }
}

fn add_optional(members: &mut Vec<(String, Json)>, f: Field, n: Option<u64>)
    ensures
        crate::json::member_views(final(members)@) == crate::json::member_views(old(members)@)
            + optional_member(f, n),
{
    proof {
        assert(crate::json::member_views(members@) + Seq::<(Seq<char>, JsonView)>::empty()
            =~= crate::json::member_views(members@));
    }
    if let Some(n) = n {
        add_number(members, f, n);
        assert(crate::json::member_views(members@) =~= crate::json::member_views(old(members)@)
            + optional_member(f, Some(n)));
    }
}

impl CreateVoucherRequest {
    /// Rejects anything past the caller's ceilings.
    ///
    /// Over-limit requests are refused rather than silently clamped: a client
    /// that asked for 50 vouchers and got 10 without being told would be a
    /// worse experience than a clear error, and quietly changing what a caller
    /// asked for is a bad habit for a security component.
    pub fn enforce(&self, c: Ceilings) -> (r: ProxyResult<()>)
        ensures
            match r {
                Ok(_) => refusal(self@, c) is None,
                Err(e) => refusal(self@, c) == Some(e@),
            },
    {
        if trim(self.name.as_str()).as_str().is_empty() {
            return Err(ProxyError::BadRequest("voucher name must not be empty".to_owned()));
        }
        if self.name.as_str().unicode_len() > 128 {
            return Err(ProxyError::BadRequest("voucher name is too long".to_owned()));
        }
        if self.count == 0 {
            return Err(ProxyError::BadRequest("count must be at least 1".to_owned()));
        }
        if self.count > c.max_vouchers {
            let mut m = "this token may create at most ".to_owned();
            m.append(show(c.max_vouchers as u64).as_str());
            m.append(" voucher(s) per request (asked for ");
            m.append(show(self.count as u64).as_str());
            m.append(")");
            return Err(ProxyError::Forbidden(m));
        }
        if self.time_limit_minutes == 0 {
            return Err(ProxyError::BadRequest("timeLimitMinutes must be at least 1".to_owned()));
        }
        let ceiling: u64 = if c.max_validity_minutes < UNIFI_MAX_TIME_LIMIT_MINUTES {
            c.max_validity_minutes
        } else {
            UNIFI_MAX_TIME_LIMIT_MINUTES
        };
        if self.time_limit_minutes > ceiling {
            let mut m = "this token may issue vouchers valid for at most ".to_owned();
            m.append(show(ceiling).as_str());
            m.append(" minute(s) (asked for ");
            m.append(show(self.time_limit_minutes).as_str());
            m.append(")");
            return Err(ProxyError::Forbidden(m));
        }
        if self.authorized_guest_limit == 0 || self.authorized_guest_limit > 10_000 {
            return Err(ProxyError::BadRequest("authorizedGuestLimit is out of range".to_owned()));
        }
        Ok(())
    }

    /// The body that goes upstream: the known fields and nothing else, where a
    /// limit that is absent stays absent.
    pub fn to_upstream_body(&self) -> (r: ProxyResult<Json>)
        ensures
            r is Ok,
            r->Ok_0@ == JsonView::Object(upstream_members(self@)),
    {
        let mut members: Vec<(String, Json)> = Vec::new();
        add_number(&mut members, Field::AuthorizedGuestLimit, self.authorized_guest_limit as u64);
        add_number(&mut members, Field::Count, self.count as u64);
        add_optional(&mut members, Field::DataUsageLimitMBytes, self.data_usage_limit_m_bytes);
        let ghost before = crate::json::member_views(members@);
        members.push((Field::Name.as_str().to_owned(), Json::string(self.name.as_str())));
        assert(crate::json::member_views(members@) =~= before + seq![
            (Field::Name.name(), JsonView::Text(self@.name)),
        ]);
        add_optional(&mut members, Field::RxRateLimitKbps, self.rx_rate_limit_kbps);
        add_number(&mut members, Field::TimeLimitMinutes, self.time_limit_minutes);
        add_optional(&mut members, Field::TxRateLimitKbps, self.tx_rate_limit_kbps);
        assert(crate::json::member_views(members@) =~= upstream_members(self@));
        let body = Json::Object(members);
        proof {
            crate::json::lemma_container_views(body);
        }
        Ok(body)
    }
}

// ---------------------------------------------------------------------------
// What holds of requests
// ---------------------------------------------------------------------------

/// A request is let through exactly where it is within the caller's ceilings and
/// those of the Integration API itself.
pub proof fn a_request_is_allowed_iff_within_the_ceilings(r: RequestView, c: Ceilings)
    ensures
        refusal(r, c) is None <==> {
            &&& crate::text::trimmed(r.name).len() > 0
            &&& r.name.len() <= 128
            &&& 1 <= r.count <= c.max_vouchers
            &&& 1 <= r.time_limit_minutes <= c.max_validity_minutes
            &&& r.time_limit_minutes <= UNIFI_MAX_TIME_LIMIT_MINUTES
            &&& 1 <= r.authorized_guest_limit <= 10_000
        },
{
}

/// What tight ceilings let through, looser ones do too.
pub proof fn looser_ceilings_allow_more(r: RequestView, tight: Ceilings, loose: Ceilings)
    requires
        tight.max_vouchers <= loose.max_vouchers,
        tight.max_validity_minutes <= loose.max_validity_minutes,
        refusal(r, tight) is None,
    ensures
        refusal(r, loose) is None,
{
}

/// No two fields share a name on the wire.
proof fn lemma_field_names(f: Field)
    ensures
        field_named(f.name()) == Some(f),
{
    reveal_strlit("name");
    reveal_strlit("count");
    reveal_strlit("timeLimitMinutes");
    reveal_strlit("authorizedGuestLimit");
    reveal_strlit("dataUsageLimitMBytes");
    reveal_strlit("rxRateLimitKbps");
    reveal_strlit("txRateLimitKbps");
    assert("name"@.len() == 4);
    assert("count"@.len() == 5);
    assert("timeLimitMinutes"@.len() == 16);
    assert("authorizedGuestLimit"@.len() == 20);
    assert("dataUsageLimitMBytes"@.len() == 20);
    assert("rxRateLimitKbps"@.len() == 15);
    assert("txRateLimitKbps"@.len() == 15);
    assert("authorizedGuestLimit"@[0] == 'a');
    assert("dataUsageLimitMBytes"@[0] == 'd');
    assert("rxRateLimitKbps"@[0] == 'r');
    assert("txRateLimitKbps"@[0] == 't');
}

proof fn lemma_with_all_in_two(
    d: DraftView,
    a: Seq<(Seq<char>, JsonView)>,
    b: Seq<(Seq<char>, JsonView)>,
)
    ensures
        d.with_all(a + b) == (match d.with_all(a) {
            Ok(next) => next.with_all(b),
            Err(why) => Err(why),
        }),
    decreases a.len(),
{
    if a.len() == 0 {
        assert(a + b =~= b);
    } else {
        assert((a + b)[0] == a[0]);
        assert((a + b).drop_first() =~= a.drop_first() + b);
        if let Ok(next) = d.with(a[0].0, a[0].1) {
            lemma_with_all_in_two(next, a.drop_first(), b);
        }
    }
}

proof fn lemma_with_one(d: DraftView, m: (Seq<char>, JsonView))
    ensures
        d.with_all(seq![m]) == d.with(m.0, m.1),
{
    reveal_with_fuel(DraftView::with_all, 2);
    assert(seq![m].drop_first() =~= seq![]);
}

/// Reading back what goes upstream gives the very request that went in: the
/// controller is asked for what the client asked for, no more and no less.
pub proof fn what_goes_upstream_reads_back(r: RequestView)
    ensures
        request_in(JsonView::Object(upstream_members(r))) == Ok::<RequestView, Seq<char>>(r),
{
    lemma_field_names(Field::Name);
    lemma_field_names(Field::Count);
    lemma_field_names(Field::TimeLimitMinutes);
    lemma_field_names(Field::AuthorizedGuestLimit);
    lemma_field_names(Field::DataUsageLimitMBytes);
    lemma_field_names(Field::RxRateLimitKbps);
    lemma_field_names(Field::TxRateLimitKbps);
    let guests = number_member(Field::AuthorizedGuestLimit, r.authorized_guest_limit as u64);
    let count = number_member(Field::Count, r.count as u64);
    let a = seq![guests, count];
    let b = optional_member(Field::DataUsageLimitMBytes, r.data_usage_limit_m_bytes);
    let name = (Field::Name.name(), JsonView::Text(r.name));
    let c = seq![name];
    let d = optional_member(Field::RxRateLimitKbps, r.rx_rate_limit_kbps);
    let minutes = number_member(Field::TimeLimitMinutes, r.time_limit_minutes);
    let e = seq![minutes];
    let f = optional_member(Field::TxRateLimitKbps, r.tx_rate_limit_kbps);
    let d0 = DraftView::blank();
    assert(a =~= seq![guests] + seq![count]);
    lemma_with_all_in_two(d0, seq![guests], seq![count]);
    lemma_with_one(d0, guests);
    let d1 = DraftView { authorized_guest_limit: Some(r.authorized_guest_limit), ..d0 };
    lemma_with_one(d1, count);
    let d2 = DraftView { count: Some(r.count), ..d1 };
    assert(d0.with_all(a) == Ok::<DraftView, Seq<char>>(d2));
    lemma_with_all_in_two(d0, a, b);
    let d3 = match r.data_usage_limit_m_bytes {
        Some(n) => DraftView { data_usage_limit_m_bytes: Some(Some(n)), ..d2 },
        None => d2,
    };
    if let Some(n) = r.data_usage_limit_m_bytes {
        lemma_with_one(d2, number_member(Field::DataUsageLimitMBytes, n));
    }
    assert(d0.with_all(a + b) == Ok::<DraftView, Seq<char>>(d3));
    lemma_with_all_in_two(d0, a + b, c);
    lemma_with_one(d3, name);
    let d4 = DraftView { name: Some(r.name), ..d3 };
    assert(d0.with_all(a + b + c) == Ok::<DraftView, Seq<char>>(d4));
    lemma_with_all_in_two(d0, a + b + c, d);
    let d5 = match r.rx_rate_limit_kbps {
        Some(n) => DraftView { rx_rate_limit_kbps: Some(Some(n)), ..d4 },
        None => d4,
    };
    if let Some(n) = r.rx_rate_limit_kbps {
        lemma_with_one(d4, number_member(Field::RxRateLimitKbps, n));
    }
    lemma_with_all_in_two(d0, a + b + c + d, e);
    lemma_with_one(d5, minutes);
    let d6 = DraftView { time_limit_minutes: Some(r.time_limit_minutes), ..d5 };
    assert(d0.with_all(a + b + c + d + e) == Ok::<DraftView, Seq<char>>(d6));
    lemma_with_all_in_two(d0, a + b + c + d + e, f);
    if let Some(n) = r.tx_rate_limit_kbps {
        lemma_with_one(d6, number_member(Field::TxRateLimitKbps, n));
    }
}

/// Every member that goes upstream is a known field.
pub proof fn only_known_fields_go_upstream(r: RequestView)
    ensures
        forall|i: int|
            0 <= i < upstream_members(r).len() ==> field_named(
                (#[trigger] upstream_members(r)[i]).0,
            ) is Some,
{
    lemma_field_names(Field::Name);
    lemma_field_names(Field::Count);
    lemma_field_names(Field::TimeLimitMinutes);
    lemma_field_names(Field::AuthorizedGuestLimit);
    lemma_field_names(Field::DataUsageLimitMBytes);
    lemma_field_names(Field::RxRateLimitKbps);
    lemma_field_names(Field::TxRateLimitKbps);
}

proof fn lemma_read_members_are_known(d: DraftView, members: Seq<(Seq<char>, JsonView)>)
    requires
        d.with_all(members) is Ok,
    ensures
        forall|i: int|
            0 <= i < members.len() ==> field_named((#[trigger] members[i]).0) is Some,
    decreases members.len(),
{
    if members.len() > 0 {
        let next = d.with(members[0].0, members[0].1)->Ok_0;
        let rest = members.drop_first();
        lemma_read_members_are_known(next, rest);
        assert forall|i: int| 0 <= i < members.len() implies field_named(
            (#[trigger] members[i]).0,
        ) is Some by {
            if i > 0 {
                assert(members[i] == rest[i - 1]);
            }
        }
    }
}

/// An object with any member that is not a known field is refused, whatever else
/// it holds.
pub proof fn an_unknown_field_is_refused(members: Seq<(Seq<char>, JsonView)>, i: int)
    requires
        0 <= i < members.len(),
        field_named(members[i].0) is None,
    ensures
        request_in(JsonView::Object(members)) is Err,
{
    if DraftView::blank().with_all(members) is Ok {
        lemma_read_members_are_known(DraftView::blank(), members);
        assert(field_named(members[i].0) is Some);
    }
}

// ---------------------------------------------------------------------------
// What is read of a request
// ---------------------------------------------------------------------------

/// What a member was read as.
ghost enum Reading {
    Text(Seq<char>),
    Short(u32),
    Long(u64),
    Optional(Option<u64>),
}

/// What was read of a field so far.
spec fn slot(d: DraftView, f: Field) -> Option<Reading> {
    match f {
        Field::Name => match d.name {
            Some(x) => Some(Reading::Text(x)),
            None => None,
        },
        Field::Count => match d.count {
            Some(x) => Some(Reading::Short(x)),
            None => None,
        },
        Field::TimeLimitMinutes => match d.time_limit_minutes {
            Some(x) => Some(Reading::Long(x)),
            None => None,
        },
        Field::AuthorizedGuestLimit => match d.authorized_guest_limit {
            Some(x) => Some(Reading::Short(x)),
            None => None,
        },
        Field::DataUsageLimitMBytes => match d.data_usage_limit_m_bytes {
            Some(x) => Some(Reading::Optional(x)),
            None => None,
        },
        Field::RxRateLimitKbps => match d.rx_rate_limit_kbps {
            Some(x) => Some(Reading::Optional(x)),
            None => None,
        },
        Field::TxRateLimitKbps => match d.tx_rate_limit_kbps {
            Some(x) => Some(Reading::Optional(x)),
            None => None,
        },
    }
}

/// What a document is read as where a field is expected.
spec fn reading(f: Field, v: JsonView) -> Option<Reading> {
    match f {
        Field::Name => match text_in(v) {
            Ok(x) => Some(Reading::Text(x)),
            Err(_) => None,
        },
        Field::Count | Field::AuthorizedGuestLimit => match short_in(v) {
            Ok(x) => Some(Reading::Short(x)),
            Err(_) => None,
        },
        Field::TimeLimitMinutes => match long_in(v) {
            Ok(x) => Some(Reading::Long(x)),
            Err(_) => None,
        },
        _ => match optional_in(v) {
            Ok(x) => Some(Reading::Optional(x)),
            Err(_) => None,
        },
    }
}

proof fn lemma_one_member(d: DraftView, key: Seq<char>, v: JsonView)
    ensures
        d.with(key, v) is Ok <==> field_named(key) is Some && slot(d, field_named(key)->0) is None
            && reading(field_named(key)->0, v) is Some,
        d.with(key, v) matches Ok(e) ==> {
            &&& slot(e, field_named(key)->0) == reading(field_named(key)->0, v)
            &&& forall|g: Field| g != field_named(key)->0 ==> #[trigger] slot(e, g) == slot(d, g)
        },
{
}

/// What some members come to for one field.
proof fn lemma_some_members(d: DraftView, members: Seq<(Seq<char>, JsonView)>, f: Field)
    requires
        d.with_all(members) is Ok,
    ensures
        ({
            let e = d.with_all(members)->Ok_0;
            &&& forall|i: int|
                0 <= i < members.len() && field_named((#[trigger] members[i]).0) == Some(f) ==> {
                    &&& slot(d, f) is None
                    &&& slot(e, f) is Some
                    &&& slot(e, f) == reading(f, members[i].1)
                }
            &&& (forall|i: int|
                0 <= i < members.len() ==> field_named((#[trigger] members[i]).0) != Some(f))
                ==> slot(e, f) == slot(d, f)
            &&& forall|i: int, j: int|
                0 <= i < j < members.len() && field_named((#[trigger] members[i]).0) == Some(f)
                    ==> field_named((#[trigger] members[j]).0) != Some(f)
            &&& slot(d, f) is Some ==> slot(e, f) == slot(d, f)
        }),
    decreases members.len(),
{
    if members.len() > 0 {
        let rest = members.drop_first();
        let key = members[0].0;
        let next = d.with(key, members[0].1)->Ok_0;
        let e = d.with_all(members)->Ok_0;
        lemma_one_member(d, key, members[0].1);
        lemma_some_members(next, rest, f);
        assert forall|i: int|
            0 <= i < members.len() && field_named((#[trigger] members[i]).0) == Some(f) implies {
            &&& slot(d, f) is None
            &&& slot(e, f) is Some
            &&& slot(e, f) == reading(f, members[i].1)
        } by {
            if i > 0 {
                assert(rest[i - 1] == members[i]);
            }
        }
        if forall|i: int|
            0 <= i < members.len() ==> field_named((#[trigger] members[i]).0) != Some(f) {
            assert forall|i: int| 0 <= i < rest.len() implies field_named((#[trigger] rest[i]).0)
                != Some(f) by {
                assert(rest[i] == members[i + 1]);
            }
            assert(field_named(members[0].0) != Some(f));
        }
        assert forall|i: int, j: int|
            0 <= i < j < members.len() && field_named((#[trigger] members[i]).0) == Some(
                f,
            ) implies field_named((#[trigger] members[j]).0) != Some(f) by {
            assert(rest[j - 1] == members[j]);
            if i > 0 {
                assert(rest[i - 1] == members[i]);
            }
        }
    }
}

/// Members that are all known, all readable and all different are all read.
proof fn lemma_good_members(d: DraftView, members: Seq<(Seq<char>, JsonView)>)
    requires
        forall|i: int|
            #![trigger members[i]]
            0 <= i < members.len() ==> {
                &&& field_named(members[i].0) is Some
                &&& slot(d, field_named(members[i].0)->0) is None
                &&& reading(field_named(members[i].0)->0, members[i].1) is Some
            },
        forall|i: int, j: int|
            0 <= i < j < members.len() ==> field_named((#[trigger] members[i]).0) != field_named(
                (#[trigger] members[j]).0,
            ),
    ensures
        d.with_all(members) is Ok,
    decreases members.len(),
{
    if members.len() > 0 {
        let rest = members.drop_first();
        lemma_one_member(d, members[0].0, members[0].1);
        assert(field_named(members[0].0) is Some);
        let next = d.with(members[0].0, members[0].1)->Ok_0;
        assert forall|i: int|
            #![trigger rest[i]]
            0 <= i < rest.len() implies {
            &&& field_named(rest[i].0) is Some
            &&& slot(next, field_named(rest[i].0)->0) is None
            &&& reading(field_named(rest[i].0)->0, rest[i].1) is Some
        } by {
            assert(rest[i] == members[i + 1]);
            assert(field_named(members[0].0) != field_named(members[i + 1].0));
        }
        assert forall|i: int, j: int| 0 <= i < j < rest.len() implies field_named(
            (#[trigger] rest[i]).0,
        ) != field_named((#[trigger] rest[j]).0) by {
            assert(rest[i] == members[i + 1] && rest[j] == members[j + 1]);
        }
        lemma_good_members(next, rest);
    }
}

/// Whether a document is a number that stands for `n`.
pub open spec fn stands_for(v: JsonView, n: int) -> bool {
    ||| v matches JsonView::Number(NumberView::Unsigned(m)) && m == n
    ||| v matches JsonView::Number(NumberView::Negative(m)) && m == n
}

/// Whether a document is a number from zero to `max`.
pub open spec fn is_number_up_to(v: JsonView, max: int) -> bool {
    ||| v matches JsonView::Number(NumberView::Unsigned(m)) && m <= max
    ||| v matches JsonView::Number(NumberView::Negative(m)) && 0 <= m <= max
}

/// Whether a document is the optional limit `n`: null for none, else its number.
pub open spec fn stands_for_limit(v: JsonView, n: Option<u64>) -> bool {
    match n {
        Some(n) => stands_for(v, n as int),
        None => v == JsonView::Null,
    }
}

/// Whether no member is called `name`.
pub open spec fn lacks(members: Seq<(Seq<char>, JsonView)>, name: Seq<char>) -> bool {
    forall|i: int| 0 <= i < members.len() ==> (#[trigger] members[i]).0 != name
}

proof fn lemma_names(key: Seq<char>)
    ensures
        field_named(key) == Some(Field::Name) <==> key == "name"@,
        field_named(key) == Some(Field::Count) <==> key == "count"@,
        field_named(key) == Some(Field::TimeLimitMinutes) <==> key == "timeLimitMinutes"@,
        field_named(key) == Some(Field::AuthorizedGuestLimit) <==> key == "authorizedGuestLimit"@,
        field_named(key) == Some(Field::DataUsageLimitMBytes) <==> key == "dataUsageLimitMBytes"@,
        field_named(key) == Some(Field::RxRateLimitKbps) <==> key == "rxRateLimitKbps"@,
        field_named(key) == Some(Field::TxRateLimitKbps) <==> key == "txRateLimitKbps"@,
{
    lemma_field_names(Field::Name);
    lemma_field_names(Field::Count);
    lemma_field_names(Field::TimeLimitMinutes);
    lemma_field_names(Field::AuthorizedGuestLimit);
    lemma_field_names(Field::DataUsageLimitMBytes);
    lemma_field_names(Field::RxRateLimitKbps);
    lemma_field_names(Field::TxRateLimitKbps);
}

/// A field that is left out of an accepted object has its default, whatever else
/// the object holds: one voucher, one guest, and no limit.
pub proof fn what_is_left_out_has_its_default(members: Seq<(Seq<char>, JsonView)>)
    requires
        request_in(JsonView::Object(members)) is Ok,
    ensures
        ({
            let r = request_in(JsonView::Object(members))->Ok_0;
            &&& lacks(members, "count"@) ==> r.count == 1
            &&& lacks(members, "authorizedGuestLimit"@) ==> r.authorized_guest_limit == 1
            &&& lacks(members, "dataUsageLimitMBytes"@) ==> r.data_usage_limit_m_bytes is None
            &&& lacks(members, "rxRateLimitKbps"@) ==> r.rx_rate_limit_kbps is None
            &&& lacks(members, "txRateLimitKbps"@) ==> r.tx_rate_limit_kbps is None
            &&& !lacks(members, "name"@)
            &&& !lacks(members, "timeLimitMinutes"@)
        }),
{
    let d = DraftView::blank();
    lemma_some_members(d, members, Field::Name);
    lemma_some_members(d, members, Field::Count);
    lemma_some_members(d, members, Field::TimeLimitMinutes);
    lemma_some_members(d, members, Field::AuthorizedGuestLimit);
    lemma_some_members(d, members, Field::DataUsageLimitMBytes);
    lemma_some_members(d, members, Field::RxRateLimitKbps);
    lemma_some_members(d, members, Field::TxRateLimitKbps);
}

/// A field that an accepted object names is what the member of that name says, for
/// every field, and no member is named twice.
pub proof fn what_is_named_is_what_is_read(members: Seq<(Seq<char>, JsonView)>, i: int)
    requires
        request_in(JsonView::Object(members)) is Ok,
        0 <= i < members.len(),
    ensures
        ({
            let r = request_in(JsonView::Object(members))->Ok_0;
            let key = members[i].0;
            let v = members[i].1;
            &&& key == "name"@ ==> v == JsonView::Text(r.name)
            &&& key == "count"@ ==> stands_for(v, r.count as int)
            &&& key == "timeLimitMinutes"@ ==> stands_for(v, r.time_limit_minutes as int)
            &&& key == "authorizedGuestLimit"@ ==> stands_for(v, r.authorized_guest_limit as int)
            &&& key == "dataUsageLimitMBytes"@ ==> stands_for_limit(v, r.data_usage_limit_m_bytes)
            &&& key == "rxRateLimitKbps"@ ==> stands_for_limit(v, r.rx_rate_limit_kbps)
            &&& key == "txRateLimitKbps"@ ==> stands_for_limit(v, r.tx_rate_limit_kbps)
            &&& key == "name"@ || key == "count"@ || key == "timeLimitMinutes"@ || key
                == "authorizedGuestLimit"@ || key == "dataUsageLimitMBytes"@ || key
                == "rxRateLimitKbps"@ || key == "txRateLimitKbps"@
            &&& forall|j: int|
                0 <= j < members.len() && j != i ==> (#[trigger] members[j]).0 != key
        }),
{
    let d = DraftView::blank();
    let f = field_named(members[i].0);
    lemma_read_members_are_known(d, members);
    lemma_names(members[i].0);
    lemma_some_members(d, members, f->0);
    assert(slot(d.with_all(members)->Ok_0, f->0) == reading(f->0, members[i].1));
}

/// An object with a name and a time limit, of known members that are each named once
/// and hold a value of the right type and range, is accepted.
pub proof fn a_well_formed_object_is_accepted(members: Seq<(Seq<char>, JsonView)>)
    requires
        !lacks(members, "name"@),
        !lacks(members, "timeLimitMinutes"@),
        forall|i: int, j: int|
            0 <= i < j < members.len() ==> (#[trigger] members[i]).0 != (#[trigger] members[j]).0,
        forall|i: int|
            #![trigger members[i]]
            0 <= i < members.len() ==> {
                let key = members[i].0;
                let v = members[i].1;
                ||| key == "name"@ && v is Text
                ||| (key == "count"@ || key == "authorizedGuestLimit"@) && is_number_up_to(
                    v,
                    u32::MAX as int,
                )
                ||| key == "timeLimitMinutes"@ && is_number_up_to(v, u64::MAX as int)
                ||| (key == "dataUsageLimitMBytes"@ || key == "rxRateLimitKbps"@ || key
                    == "txRateLimitKbps"@) && (v is Null || is_number_up_to(v, u64::MAX as int))
            },
    ensures
        request_in(JsonView::Object(members)) is Ok,
{
    let d = DraftView::blank();
    assert forall|i: int|
        #![trigger members[i]]
        0 <= i < members.len() implies {
        &&& field_named(members[i].0) is Some
        &&& slot(d, field_named(members[i].0)->0) is None
        &&& reading(field_named(members[i].0)->0, members[i].1) is Some
    } by {
        lemma_names(members[i].0);
    }
    assert forall|i: int, j: int| 0 <= i < j < members.len() implies field_named(
        (#[trigger] members[i]).0,
    ) != field_named((#[trigger] members[j]).0) by {
        lemma_names(members[i].0);
        lemma_names(members[j].0);
        assert(members[i].0 != members[j].0);
        assert(field_named(members[i].0) is Some);
    }
    lemma_good_members(d, members);
    let a = choose|i: int| 0 <= i < members.len() && (#[trigger] members[i]).0 == "name"@;
    let b = choose|i: int| 0 <= i < members.len() && (#[trigger] members[i]).0
        == "timeLimitMinutes"@;
    lemma_names(members[a].0);
    lemma_names(members[b].0);
    lemma_some_members(d, members, Field::Name);
    lemma_some_members(d, members, Field::TimeLimitMinutes);
}

/// A list is a request exactly where it holds all seven fields in their order, each
/// of the right type, and they are then what is read; a document that is neither a
/// list nor an object is none.
pub proof fn a_list_is_read_by_position(items: Seq<JsonView>)
    ensures
        request_in(JsonView::Array(items)) is Ok <==> {
            &&& items.len() == 7
            &&& items[0] is Text
            &&& is_number_up_to(items[1], u32::MAX as int)
            &&& is_number_up_to(items[2], u64::MAX as int)
            &&& is_number_up_to(items[3], u32::MAX as int)
            &&& items[4] is Null || is_number_up_to(items[4], u64::MAX as int)
            &&& items[5] is Null || is_number_up_to(items[5], u64::MAX as int)
            &&& items[6] is Null || is_number_up_to(items[6], u64::MAX as int)
        },
        request_in(JsonView::Array(items)) matches Ok(r) ==> {
            &&& items[0] == JsonView::Text(r.name)
            &&& stands_for(items[1], r.count as int)
            &&& stands_for(items[2], r.time_limit_minutes as int)
            &&& stands_for(items[3], r.authorized_guest_limit as int)
            &&& stands_for_limit(items[4], r.data_usage_limit_m_bytes)
            &&& stands_for_limit(items[5], r.rx_rate_limit_kbps)
            &&& stands_for_limit(items[6], r.tx_rate_limit_kbps)
        },
        forall|v: JsonView|
            !(v is Array) && !(v is Object) ==> (#[trigger] request_in(v)) is Err,
{
}

/// What goes upstream under each name is the value of that field of the request,
/// and a limit that the request does not set is not there.
pub proof fn each_field_goes_upstream_under_its_name(r: RequestView)
    ensures
        ({
            let v = JsonView::Object(upstream_members(r));
            &&& v.get("name"@) == Some(JsonView::Text(r.name))
            &&& v.get("count"@) == Some(JsonView::Number(NumberView::Unsigned(r.count as u64)))
            &&& v.get("timeLimitMinutes"@) == Some(
                JsonView::Number(NumberView::Unsigned(r.time_limit_minutes)),
            )
            &&& v.get("authorizedGuestLimit"@) == Some(
                JsonView::Number(NumberView::Unsigned(r.authorized_guest_limit as u64)),
            )
            &&& v.get("dataUsageLimitMBytes"@) == (match r.data_usage_limit_m_bytes {
                Some(n) => Some(JsonView::Number(NumberView::Unsigned(n))),
                None => None,
            })
            &&& v.get("rxRateLimitKbps"@) == (match r.rx_rate_limit_kbps {
                Some(n) => Some(JsonView::Number(NumberView::Unsigned(n))),
                None => None,
            })
            &&& v.get("txRateLimitKbps"@) == (match r.tx_rate_limit_kbps {
                Some(n) => Some(JsonView::Number(NumberView::Unsigned(n))),
                None => None,
            })
        }),
{
    let members = upstream_members(r);
    let v = JsonView::Object(members);
    what_goes_upstream_reads_back(r);
    what_is_left_out_has_its_default(members);
    crate::json::a_member_is_found_by_its_name(v, "name"@);
    crate::json::a_member_is_found_by_its_name(v, "count"@);
    crate::json::a_member_is_found_by_its_name(v, "timeLimitMinutes"@);
    crate::json::a_member_is_found_by_its_name(v, "authorizedGuestLimit"@);
    crate::json::a_member_is_found_by_its_name(v, "dataUsageLimitMBytes"@);
    crate::json::a_member_is_found_by_its_name(v, "rxRateLimitKbps"@);
    crate::json::a_member_is_found_by_its_name(v, "txRateLimitKbps"@);
    assert forall|i: int| 0 <= i < members.len() implies {
        let m = #[trigger] members[i];
        &&& m.0 == "name"@ ==> m.1 == JsonView::Text(r.name)
        &&& m.0 == "count"@ ==> m.1 == JsonView::Number(NumberView::Unsigned(r.count as u64))
        &&& m.0 == "timeLimitMinutes"@ ==> m.1 == JsonView::Number(
            NumberView::Unsigned(r.time_limit_minutes),
        )
        &&& m.0 == "authorizedGuestLimit"@ ==> m.1 == JsonView::Number(
            NumberView::Unsigned(r.authorized_guest_limit as u64),
        )
        &&& m.0 == "dataUsageLimitMBytes"@ ==> r.data_usage_limit_m_bytes is Some && m.1
            == JsonView::Number(NumberView::Unsigned(r.data_usage_limit_m_bytes->0))
        &&& m.0 == "rxRateLimitKbps"@ ==> r.rx_rate_limit_kbps is Some && m.1
            == JsonView::Number(NumberView::Unsigned(r.rx_rate_limit_kbps->0))
        &&& m.0 == "txRateLimitKbps"@ ==> r.tx_rate_limit_kbps is Some && m.1
            == JsonView::Number(NumberView::Unsigned(r.tx_rate_limit_kbps->0))
    } by {
        what_is_named_is_what_is_read(members, i);
        lemma_names(members[i].0);
        lemma_upstream_numbers(r, i);
    }
    lemma_sent_where_set(r);
}

/// A member that goes upstream is a name or a number from zero up.
proof fn lemma_upstream_numbers(r: RequestView, i: int)
    requires
        0 <= i < upstream_members(r).len(),
    ensures
        upstream_members(r)[i].1 is Text || upstream_members(r)[i].1 matches JsonView::Number(
            NumberView::Unsigned(_),
        ),
{
}

proof fn lemma_sent_where_set(r: RequestView)
    ensures
        !lacks(upstream_members(r), "count"@),
        !lacks(upstream_members(r), "authorizedGuestLimit"@),
        r.data_usage_limit_m_bytes is Some <==> !lacks(upstream_members(r), "dataUsageLimitMBytes"@),
        r.rx_rate_limit_kbps is Some <==> !lacks(upstream_members(r), "rxRateLimitKbps"@),
        r.tx_rate_limit_kbps is Some <==> !lacks(upstream_members(r), "txRateLimitKbps"@),
{
    let members = upstream_members(r);
    let a = 2 + optional_member(Field::DataUsageLimitMBytes, r.data_usage_limit_m_bytes).len();
    let b = a + 1 + optional_member(Field::RxRateLimitKbps, r.rx_rate_limit_kbps).len();
    what_goes_upstream_reads_back(r);
    what_is_left_out_has_its_default(members);
    assert(members[0].0 == "authorizedGuestLimit"@);
    assert(members[1].0 == "count"@);
    if r.data_usage_limit_m_bytes is Some {
        assert(members[2].0 == "dataUsageLimitMBytes"@);
    }
    if r.rx_rate_limit_kbps is Some {
        assert(members[a as int + 1].0 == "rxRateLimitKbps"@);
    }
    if r.tx_rate_limit_kbps is Some {
        assert(members[b as int + 1].0 == "txRateLimitKbps"@);
    }
    assert forall|i: int| 0 <= i < members.len() implies {
        let m = #[trigger] members[i];
        &&& m.0 == "dataUsageLimitMBytes"@ ==> r.data_usage_limit_m_bytes is Some
        &&& m.0 == "rxRateLimitKbps"@ ==> r.rx_rate_limit_kbps is Some
        &&& m.0 == "txRateLimitKbps"@ ==> r.tx_rate_limit_kbps is Some
    } by {
        what_is_named_is_what_is_read(members, i);
        lemma_upstream_numbers(r, i);
    }
}

/// A request that asks for more than a caller may have is forbidden, and the caller
/// is told the ceiling and what was asked for; whatever else is wrong with a request
/// is a bad request. The name is looked at first, then the number, the validity and
/// the guests.
pub proof fn a_refusal_says_what_is_wrong(r: RequestView, c: Ceilings)
    ensures
        ({
            let named = crate::text::trimmed(r.name).len() > 0 && r.name.len() <= 128;
            let validity: u64 = if c.max_validity_minutes <= 1_000_000 {
                c.max_validity_minutes
            } else {
                1_000_000
            };
            &&& !named ==> is_bad_request(refusal(r, c))
            &&& named && r.count == 0 ==> is_bad_request(refusal(r, c))
            &&& named && r.count > c.max_vouchers && r.count > 0 ==> is_forbidden(
                refusal(r, c),
                c.max_vouchers as nat,
                r.count as nat,
            )
            &&& named && 0 < r.count <= c.max_vouchers && r.time_limit_minutes == 0
                ==> is_bad_request(refusal(r, c))
            &&& named && 0 < r.count <= c.max_vouchers && r.time_limit_minutes > validity
                && r.time_limit_minutes > 0 ==> is_forbidden(
                refusal(r, c),
                validity as nat,
                r.time_limit_minutes as nat,
            )
            &&& named && 0 < r.count <= c.max_vouchers && 0 < r.time_limit_minutes <= validity
                && !(1 <= r.authorized_guest_limit <= 10_000) ==> is_bad_request(refusal(r, c))
        }),
{
    if r.count > c.max_vouchers {
        lemma_tells(
            "this token may create at most "@,
            c.max_vouchers as nat,
            " voucher(s) per request (asked for "@,
            r.count as nat,
            ")"@,
        );
    }
    if r.time_limit_minutes > validity_ceiling(c) {
        lemma_tells(
            "this token may issue vouchers valid for at most "@,
            validity_ceiling(c) as nat,
            " minute(s) (asked for "@,
            r.time_limit_minutes as nat,
            ")"@,
        );
    }
}

/// Whether a refusal is that of a bad request.
pub open spec fn is_bad_request(e: Option<ErrorView>) -> bool {
    e is Some && e->0 is BadRequest
}

/// Whether a refusal forbids, and tells of a ceiling and of what was asked for.
pub open spec fn is_forbidden(e: Option<ErrorView>, ceiling: nat, asked: nat) -> bool {
    e is Some && e->0 is Forbidden && tells(e->0->Forbidden_0, ceiling, asked)
}

/// Whether a message tells of a ceiling, and behind it of what was asked for.
pub open spec fn tells(m: Seq<char>, ceiling: nat, asked: nat) -> bool {
    exists|a: Seq<char>, b: Seq<char>, c: Seq<char>|
        m == #[trigger] (a + crate::text::decimal(ceiling) + b + crate::text::decimal(asked) + c)
}

proof fn lemma_tells(a: Seq<char>, ceiling: nat, b: Seq<char>, asked: nat, c: Seq<char>)
    ensures
        tells(
            a + crate::text::decimal(ceiling) + b + crate::text::decimal(asked) + c,
            ceiling,
            asked,
        ),
{
}

/// An object that is otherwise well formed but lacks the name, or else the time limit,
/// is refused for that, by the name of what is missing. So is one with a member that
/// is not known, by the name of that member, where what stands before it is well
/// formed.
pub proof fn what_is_missing_or_unknown_is_named(
    members: Seq<(Seq<char>, JsonView)>,
    key: Seq<char>,
    v: JsonView,
    more: Seq<(Seq<char>, JsonView)>,
)
    requires
        forall|i: int, j: int|
            0 <= i < j < members.len() ==> (#[trigger] members[i]).0 != (#[trigger] members[j]).0,
        forall|i: int|
            #![trigger members[i]]
            0 <= i < members.len() ==> {
                let key = members[i].0;
                let v = members[i].1;
                ||| key == "name"@ && v is Text
                ||| (key == "count"@ || key == "authorizedGuestLimit"@) && is_number_up_to(
                    v,
                    u32::MAX as int,
                )
                ||| key == "timeLimitMinutes"@ && is_number_up_to(v, u64::MAX as int)
                ||| (key == "dataUsageLimitMBytes"@ || key == "rxRateLimitKbps"@ || key
                    == "txRateLimitKbps"@) && (v is Null || is_number_up_to(v, u64::MAX as int))
            },
    ensures
        lacks(members, "name"@) ==> request_in(JsonView::Object(members)) == Err::<
            RequestView,
            Seq<char>,
        >("missing field `"@ + "name"@ + "`"@),
        !lacks(members, "name"@) && lacks(members, "timeLimitMinutes"@) ==> request_in(
            JsonView::Object(members),
        ) == Err::<RequestView, Seq<char>>("missing field `"@ + "timeLimitMinutes"@ + "`"@),
        key != "name"@ && key != "count"@ && key != "timeLimitMinutes"@ && key
            != "authorizedGuestLimit"@ && key != "dataUsageLimitMBytes"@ && key
            != "rxRateLimitKbps"@ && key != "txRateLimitKbps"@ ==> {
            let r = request_in(JsonView::Object(members + seq![(key, v)] + more));
            r is Err && ("unknown field `"@ + key + "`"@).is_prefix_of(r->Err_0)
        },
{
    let d = DraftView::blank();
    assert forall|i: int|
        #![trigger members[i]]
        0 <= i < members.len() implies {
        &&& field_named(members[i].0) is Some
        &&& slot(d, field_named(members[i].0)->0) is None
        &&& reading(field_named(members[i].0)->0, members[i].1) is Some
    } by {
        lemma_names(members[i].0);
    }
    assert forall|i: int, j: int| 0 <= i < j < members.len() implies field_named(
        (#[trigger] members[i]).0,
    ) != field_named((#[trigger] members[j]).0) by {
        lemma_names(members[i].0);
        lemma_names(members[j].0);
        assert(members[i].0 != members[j].0);
        assert(field_named(members[i].0) is Some);
    }
    lemma_good_members(d, members);
    lemma_some_members(d, members, Field::Name);
    lemma_some_members(d, members, Field::TimeLimitMinutes);
    if !lacks(members, "name"@) {
        let a = choose|i: int| 0 <= i < members.len() && (#[trigger] members[i]).0 == "name"@;
        lemma_names(members[a].0);
    }
    lemma_names(key);
    let e = d.with_all(members)->Ok_0;
    lemma_with_all_in_two(d, members, seq![(key, v)]);
    lemma_with_one(e, (key, v));
    lemma_with_all_in_two(d, members + seq![(key, v)], more);
    let told = "unknown field `"@ + key + "`"@;
    reveal_strlit("`");
    reveal_strlit(
        "`, expected one of `name`, `count`, `timeLimitMinutes`, `authorizedGuestLimit`, `dataUsageLimitMBytes`, `rxRateLimitKbps`, `txRateLimitKbps`",
    );
    assert(unknown_field(key).subrange(0, told.len() as int) =~= told);
}

} // verus!
