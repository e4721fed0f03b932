//! JSON documents as plain values.
//!
//! `serde_json` parses and renders the text; everything in between works on the
//! tree below, which holds a document as ordinary Rust values.

use vstd::prelude::*;

verus! {

/// A number that is not an integer of 64 bits: its text, and the number itself
/// so that it can be written out again unchanged.
#[derive(Debug)]
pub struct Fraction {
    text: String,
    raw: serde_json::Number,
}

impl Fraction {
    pub closed spec fn view(&self) -> Seq<char> {
        self.text@
    }

    /// The number as it is written.
    pub fn text(&self) -> (r: &str)
        ensures
            r@ == self@,
    {
        self.text.as_str()
    }
}

/// A JSON number.
#[derive(Debug)]
pub enum JsonNumber {
    /// An integer from zero up.
    Unsigned(u64),
    /// An integer below zero.
    Negative(i64),
    /// Anything else.
    Fraction(Fraction),
}

/// A JSON document. The members of an object stand in the order in which the
/// document is walked.
#[derive(Debug)]
pub enum Json {
    Null,
    Bool(bool),
    Number(JsonNumber),
    Text(String),
    Array(Vec<Json>),
    Object(Vec<(String, Json)>),
}

pub ghost enum NumberView {
    Unsigned(u64),
    Negative(i64),
    Fraction(Seq<char>),
}

pub ghost enum JsonView {
    Null,
    Bool(bool),
    Number(NumberView),
    Text(Seq<char>),
    Array(Seq<JsonView>),
    Object(Seq<(Seq<char>, JsonView)>),
}

impl JsonNumber {
    pub open spec fn view(&self) -> NumberView {
        match self {
            JsonNumber::Unsigned(n) => NumberView::Unsigned(*n),
            JsonNumber::Negative(n) => NumberView::Negative(*n),
            JsonNumber::Fraction(f) => NumberView::Fraction(f@),
        }
    }
}

impl Json {
    pub open spec fn view(&self) -> JsonView
        decreases self,
    {
        match self {
            Json::Null => JsonView::Null,
            Json::Bool(b) => JsonView::Bool(*b),
            Json::Number(n) => JsonView::Number(n.view()),
            Json::Text(t) => JsonView::Text(t@),
            Json::Array(items) => JsonView::Array(
                Seq::new(
                    items@.len(),
                    |i: int|
                        if 0 <= i < items@.len() {
                            items@[i].view()
                        } else {
                            JsonView::Null
                        },
                ),
            ),
            Json::Object(members) => JsonView::Object(
                Seq::new(
                    members@.len(),
                    |i: int|
                        if 0 <= i < members@.len() {
                            (members@[i].0@, members@[i].1.view())
                        } else {
                            (seq![], JsonView::Null)
                        },
                ),
            ),
        }
    }
}

/// The documents of a list.
pub open spec fn views(items: Seq<Json>) -> Seq<JsonView> {
    items.map_values(|v: Json| v@)
}

/// The members of an object: each name with its document.
pub open spec fn member_views(members: Seq<(String, Json)>) -> Seq<(Seq<char>, JsonView)> {
    members.map_values(|m: (String, Json)| (m.0@, m.1@))
}

/// What an optional reference to a document stands for.
pub open spec fn view_of(v: Option<&Json>) -> Option<JsonView> {
    match v {
        Some(v) => Some(v@),
        None => None,
    }
}

/// An array is viewed element by element, and an object member by member.
pub proof fn lemma_container_views(v: Json)
    ensures
        v matches Json::Array(items) ==> v@ == JsonView::Array(views(items@)),
        v matches Json::Object(members) ==> v@ == JsonView::Object(member_views(members@)),
{
    if let Json::Array(items) = v {
        assert(v@->Array_0 =~= views(items@));
    }
    if let Json::Object(members) = v {
        assert(v@->Object_0 =~= member_views(members@));
    }
}

impl JsonView {
    /// The first member of an object that is called `name`.
    pub open spec fn member(members: Seq<(Seq<char>, JsonView)>, name: Seq<char>) -> Option<
        JsonView,
    >
        decreases members.len(),
    {
        if members.len() == 0 {
            None
        } else if members[0].0 == name {
            Some(members[0].1)
        } else {
            JsonView::member(members.drop_first(), name)
        }
    }

    /// The member of this document that is called `name`; only objects have any.
    pub open spec fn get(self, name: Seq<char>) -> Option<JsonView> {
        match self {
            JsonView::Object(members) => JsonView::member(members, name),
            _ => None,
        }
    }
}

impl Json {
    /// The member that is called `name`; only objects have any.
    pub fn get(&self, name: &str) -> (r: Option<&Json>)
        ensures
            view_of(r) == self@.get(name@),
    {
        proof {
            lemma_container_views(*self);
        }
        match self {
            Json::Object(members) => {
                let ghost all = member_views(members@);
                let mut i: usize = 0;
                assert(all.skip(0) =~= all);
                while i < members.len()
                    invariant
                        i <= members@.len(),
                        all == member_views(members@),
                        self@ == JsonView::Object(all),
                        JsonView::member(all, name@) == JsonView::member(all.skip(i as int), name@),
                    decreases members.len() - i,
                {
                    assert(all.skip(i as int)[0] == (members@[i as int].0@, members@[i as int].1@));
                    if crate::text::same(members[i].0.as_str(), name) {
                        return Some(&members[i].1);
                    }
                    assert(all.skip(i as int).drop_first() =~= all.skip(i + 1));
                    i += 1;
                }
                None
            },
            _ => None,
        }
    }

    /// Reads a JSON text; `None` where it is not one.
    pub fn from_text(text: &str) -> (r: Option<Json>)
        ensures
            (match r {
                Some(v) => Some(v@),
                None => None,
            }) == parsed(text@),
    {
        parse(text)
    }

    /// Writes this document as text.
    pub fn to_text(&self) -> (r: String)
        ensures
            r@ == rendered(self@),
    {
        render(self)
    }

    /// A text document.
    pub fn string(s: &str) -> (r: Json)
        ensures
            r@ == JsonView::Text(s@),
    {
        Json::Text(s.to_owned())
    }

    /// A number document.
    pub fn integer(n: u64) -> (r: Json)
        ensures
            r@ == JsonView::Number(NumberView::Unsigned(n)),
    {
        Json::Number(JsonNumber::Unsigned(n))
    }
}

impl Clone for Fraction {
    fn clone(&self) -> (r: Self)
        ensures
            r@ == self@,
    {
        Fraction { text: self.text.as_str().to_owned(), raw: copy_number(&self.raw) }
    }
}

impl Clone for JsonNumber {
    fn clone(&self) -> (r: Self)
        ensures
            r@ == self@,
    {
        match self {
            JsonNumber::Unsigned(n) => JsonNumber::Unsigned(*n),
            JsonNumber::Negative(n) => JsonNumber::Negative(*n),
            JsonNumber::Fraction(f) => JsonNumber::Fraction(f.clone()),
        }
    }
}

impl Clone for Json {
    fn clone(&self) -> (r: Self)
        ensures
            r@ == self@,
        decreases self,
    {
        match self {
            Json::Null => Json::Null,
            Json::Bool(b) => Json::Bool(*b),
            Json::Number(n) => Json::Number(n.clone()),
            Json::Text(t) => Json::Text(t.as_str().to_owned()),
            Json::Array(items) => {
                let mut copies: Vec<Json> = Vec::new();
                let mut i: usize = 0;
                while i < items.len()
                    invariant
                        i <= items@.len(),
                        *self == Json::Array(*items),
                        views(copies@) == views(items@).take(i as int),
                    decreases items.len() - i,
                {
                    let ghost before = copies@;
                    assert(decreases_to!(*self => self->Array_0));
                    assert(decreases_to!(items => items@));
                    assert(decreases_to!(items@ => items@[i as int]));
                    assert(decreases_to!(self => items@[i as int]));
                    copies.push(items[i].clone());
                    i += 1;
                    proof {
                        assert(views(copies@) =~= views(before).push(items@[i - 1]@));
                        assert(views(items@).take(i as int) =~= views(items@).take(i - 1).push(
                            items@[i - 1]@,
                        ));
                    }
                }
                assert(views(items@).take(i as int) =~= views(items@));
                let r = Json::Array(copies);
                proof {
                    lemma_container_views(*self);
                    lemma_container_views(r);
                }
                r
            },
            Json::Object(members) => {
                let mut copies: Vec<(String, Json)> = Vec::new();
                let mut i: usize = 0;
                while i < members.len()
                    invariant
                        i <= members@.len(),
                        *self == Json::Object(*members),
                        member_views(copies@) == member_views(members@).take(i as int),
                    decreases members.len() - i,
                {
                    let ghost before = copies@;
                    assert(decreases_to!(*self => self->Object_0));
                    assert(decreases_to!(members => members@));
                    assert(decreases_to!(members@ => members@[i as int]));
                    assert(decreases_to!(members@[i as int] => members@[i as int].1));
                    assert(decreases_to!(self => members@[i as int].1));
                    copies.push((members[i].0.as_str().to_owned(), members[i].1.clone()));
                    i += 1;
                    proof {
                        let last = (members@[i - 1].0@, members@[i - 1].1@);
                        assert(member_views(copies@) =~= member_views(before).push(last));
                        assert(member_views(members@).take(i as int) =~= member_views(
                            members@,
                        ).take(i - 1).push(last));
                    }
                }
                assert(member_views(members@).take(i as int) =~= member_views(members@));
                let r = Json::Object(copies);
                proof {
                    lemma_container_views(*self);
                    lemma_container_views(r);
                }
                r
            },
        }
    }
}

#[verifier::external_type_specification]
#[verifier::external_body]
pub struct ExValue(serde_json::Value);

#[verifier::external_type_specification]
#[verifier::external_body]
pub struct ExNumber(serde_json::Number);

/// `Clone` of `serde_json::Number`. Nothing is claimed.
#[verifier::external_body]
fn copy_number(n: &serde_json::Number) -> (r: serde_json::Number) {
    n.clone()
}

/// Takes a `serde_json::Number` apart by the kind it is. Nothing is claimed.
#[verifier::external_body]
fn number_of(n: serde_json::Number) -> (r: JsonNumber) {
    match (n.as_u64(), n.as_i64()) {
        (Some(u), _) => JsonNumber::Unsigned(u),
        (None, Some(i)) => JsonNumber::Negative(i),
        (None, None) => JsonNumber::Fraction(Fraction { text: n.to_string(), raw: n }),
    }
}

/// Turns a `serde_json::Value` into the same document here. Nothing is claimed.
#[verifier::external_body]
fn document_of(v: serde_json::Value) -> (r: Json) {
    match v {
        serde_json::Value::Null => Json::Null,
        serde_json::Value::Bool(b) => Json::Bool(b),
        serde_json::Value::Number(n) => Json::Number(number_of(n)),
        serde_json::Value::String(s) => Json::Text(s),
        serde_json::Value::Array(a) => Json::Array(a.into_iter().map(document_of).collect()),
        serde_json::Value::Object(m) => Json::Object(
            m.into_iter().map(|(k, v)| (k, document_of(v))).collect(),
        ),
    }
}

/// Turns a document into the `serde_json::Value` it stands for. Nothing is claimed.
#[verifier::external_body]
fn value_of(v: &Json) -> (r: serde_json::Value) {
    match v {
        Json::Null => serde_json::Value::Null,
        Json::Bool(b) => serde_json::Value::from(*b),
        Json::Number(JsonNumber::Unsigned(n)) => serde_json::Value::from(*n),
        Json::Number(JsonNumber::Negative(n)) => serde_json::Value::from(*n),
        Json::Number(JsonNumber::Fraction(f)) => serde_json::Value::Number(f.raw.clone()),
        Json::Text(s) => serde_json::Value::from(s.as_str()),
        Json::Array(a) => a.iter().map(value_of).collect(),
        Json::Object(m) => m.iter().map(|(k, v)| (k.clone(), value_of(v))).collect(),
    }
}

/// What `serde_json::from_str` reads out of a text; `None` where it reports an
/// error.
pub uninterp spec fn parsed(text: Seq<char>) -> Option<JsonView>;

/// Reads a JSON text with `serde_json::from_str` into a `serde_json::Value`.
/// The contract claims that the outcome depends on the text alone; what it is
/// for a given text is left to that function.
#[verifier::external_body]
fn parse(text: &str) -> (r: Option<Json>)
    ensures
        (match r {
            Some(v) => Some(v@),
            None => None,
        }) == parsed(text@),
{
    serde_json::from_str::<serde_json::Value>(text).ok().map(document_of)
}

/// How `serde_json` writes a document as text.
pub uninterp spec fn rendered(v: JsonView) -> Seq<char>;

/// Writes a document with `serde_json::Value::to_string`. The contract claims
/// that the text depends on the document alone; what it is for a given document
/// is left to that function.
#[verifier::external_body]
fn render(v: &Json) -> (r: String)
    ensures
        r@ == rendered(v@),
{
    value_of(v).to_string()
}

proof fn lemma_member(members: Seq<(Seq<char>, JsonView)>, name: Seq<char>)
    ensures
        match JsonView::member(members, name) {
            Some(v) => exists|i: int|
                0 <= i < members.len() && #[trigger] members[i] == (name, v) && forall|j: int|
                    0 <= j < i ==> (#[trigger] members[j]).0 != name,
            None => forall|j: int| 0 <= j < members.len() ==> (#[trigger] members[j]).0 != name,
        },
    decreases members.len(),
{
    if members.len() > 0 && members[0].0 != name {
        let rest = members.drop_first();
        lemma_member(rest, name);
        match JsonView::member(rest, name) {
            Some(v) => {
                let i = choose|i: int|
                    0 <= i < rest.len() && #[trigger] rest[i] == (name, v) && forall|j: int|
                        0 <= j < i ==> (#[trigger] rest[j]).0 != name;
                assert(members[i + 1] == (name, v));
                assert forall|j: int| 0 <= j < i + 1 implies (#[trigger] members[j]).0 != name by {
                    if j > 0 {
                        assert(rest[j - 1] == members[j]);
                    }
                }
            },
            None => {
                assert forall|j: int| 0 <= j < members.len() implies (#[trigger] members[j]).0
                    != name by {
                    if j > 0 {
                        assert(rest[j - 1] == members[j]);
                    }
                }
            },
        }
    } else if members.len() > 0 {
        assert(members[0] == (name, members[0].1));
    }
}

/// A member is found by its very name, the first of that name, and is not found
/// exactly where there is none. Only objects have members.
pub proof fn a_member_is_found_by_its_name(v: JsonView, name: Seq<char>)
    ensures
        match v {
            JsonView::Object(members) => match v.get(name) {
                Some(found) => exists|i: int|
                    0 <= i < members.len() && #[trigger] members[i] == (name, found) && forall|
                        j: int,
                    |
                        0 <= j < i ==> (#[trigger] members[j]).0 != name,
                None => forall|j: int|
                    0 <= j < members.len() ==> (#[trigger] members[j]).0 != name,
            },
            _ => v.get(name) is None,
        },
{
    if let JsonView::Object(members) = v {
        lemma_member(members, name);
    }
}

} // verus!
