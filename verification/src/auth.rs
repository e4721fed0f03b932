//! Client tokens: minting, judging, hashing and recognising them.

use vstd::prelude::*;
use vstd::string::*;
use vstd::utf8::*;

use crate::config::{TokenConfig, TokenView};
use crate::crypto::{
    base64_url_encode, check_phc, digest, hash_password, random_bytes, random_salt,
    too_much, verify_password,
};
use crate::text::{
    alphanumeric, chars_of, digit, has_prefix, lower, same, show, show_usize, slice_text, to_lower,
    upper,
};

verus! {

// ---------------------------------------------------------------------------
// Minting and hashing
// ---------------------------------------------------------------------------

/// Whether a text could have been minted: the prefix that makes a leaked token
/// recognisable in a log or a secret scanner, and 32 bytes in base64.
pub open spec fn is_minted(token: Seq<char>) -> bool {
    exists|bytes: Seq<u8>|
        bytes.len() == 32 && token == "uvp_"@ + #[trigger] crate::crypto::base64_text(bytes, true)
}

/// A minted token is 47 bytes long.
pub proof fn lemma_minted_is_short(token: Seq<char>)
    requires
        is_minted(token),
    ensures
        crate::text::byte_length(token) == 47,
{
    let bytes = choose|bytes: Seq<u8>|
        bytes.len() == 32 && token == "uvp_"@ + #[trigger] crate::crypto::base64_text(bytes, true);
    reveal_strlit("uvp_");
    let tail = crate::crypto::base64_text(bytes, true);
    assert forall|i: int| 0 <= i < tail.len() implies '\0' <= #[trigger] tail[i] <= '\u{7f}' by {
        let n = crate::crypto::sextet(bytes, i);
        assert(0 <= n < 64);
        assert(tail[i] == crate::crypto::base64_char(n, true));
    }
    assert(is_ascii_chars(token));
    is_ascii_chars_encode_utf8(token);
}

/// Whether a hash is one that a token was given under a fresh salt. The token
/// matches it.
pub open spec fn is_fresh_hash(token: Seq<char>, hash: Seq<char>) -> bool {
    &&& pair_verdict(token, hash) == Ok::<bool, Seq<char>>(true)
    &&& exists|salt: Seq<char>|
        crate::crypto::is_fresh_salt(salt) && #[trigger] crate::crypto::argon2_hash(token, salt)
            == Ok::<Seq<char>, Seq<char>>(hash)
}

/// Hashes a token with Argon2id under a fresh salt.
///
/// The salt is drawn anew each time, so which hash comes back is up to chance:
/// it is one that the token verifies against.
pub fn hash_token(token: &str) -> (r: Result<String, String>)
    ensures
        r matches Ok(hash) ==> is_fresh_hash(token@, hash@),
        r matches Err(m) ==> exists|salt: Seq<char>|
            crate::crypto::is_fresh_salt(salt) && refused_under(token@, salt, m@),
        crate::text::byte_length(token@) <= 0xFFFF_FFFF ==> r is Ok,
{
    let salt = random_salt();
    let r = hash_token_with(token, salt.as_str());
    assert(r matches Err(m) ==> refused_under(token@, salt@, m@));
    r
}

/// Hashes a token with Argon2id under a given salt.
pub fn hash_token_with(token: &str, salt: &str) -> (r: Result<String, String>)
    ensures
        match crate::crypto::argon2_hash(token@, salt@) {
            Ok(hash) => r is Ok && r->Ok_0@ == hash,
            Err(why) => r is Err && r->Err_0@ == "failed to hash token: "@ + why,
        },
        r matches Ok(hash) ==> pair_verdict(token@, hash@) == Ok::<bool, Seq<char>>(true),
        crate::crypto::is_fresh_salt(salt@) && crate::text::byte_length(token@) <= 0xFFFF_FFFF
            ==> r is Ok,
{
    match hash_password(token, salt) {
        Ok(hash) => Ok(hash),
        Err(why) => {
            let mut m = "failed to hash token: ".to_owned();
            m.append(why.as_str());
            Err(m)
        },
    }
}

/// Whether `m` reports why a token could not be hashed under a salt.
pub open spec fn refused_under(token: Seq<char>, salt: Seq<char>, m: Seq<char>) -> bool {
    crate::crypto::argon2_hash(token, salt) matches Err(why) && m == "failed to hash token: "@ + why
}

/// The token that 32 bytes make: the prefix, and the bytes in base64.
pub fn mint(bytes: &Vec<u8>) -> (r: String)
    requires
        bytes@.len() == 32,
    ensures
        r@ == "uvp_"@ + crate::crypto::base64_text(bytes@, true),
        is_minted(r@),
{
    let mut token = "uvp_".to_owned();
    token.append(base64_url_encode(bytes).as_str());
    token
}

/// Mints a fresh client token and its Argon2id hash.
///
/// Which token comes back is up to chance; it verifies against its hash.
pub fn generate_token() -> (r: Result<(String, String), String>)
    ensures
        r is Ok,
        is_minted(r->Ok_0.0@),
        is_fresh_hash(r->Ok_0.0@, r->Ok_0.1@),
{
    let bytes = random_bytes();
    let token = mint(&bytes);
    proof {
        lemma_minted_is_short(token@);
    }
    match hash_token(token.as_str()) {
        Ok(hash) => Ok((token, hash)),
        Err(m) => Err(m),
    }
}

/// Whether a token is the one that a hash was made of. None is where the hash
/// asks for more than can be computed.
pub open spec fn is_key_of(token: Seq<char>, hash: Seq<char>) -> bool {
    !crate::crypto::asks_too_much(hash) && crate::crypto::argon2_verifies(token, hash)
}

/// What checking a token against a hash comes to: whether it matches, or why the
/// hash is none.
pub open spec fn pair_verdict(token: Seq<char>, hash: Seq<char>) -> Result<bool, Seq<char>> {
    match crate::crypto::phc_error(hash) {
        None => Ok(is_key_of(token, hash)),
        Some(why) => Err("bad hash: "@ + why),
    }
}

fn verify(token: &str, hash: &str) -> (r: bool)
    requires
        crate::crypto::phc_error(hash@) is None,
    ensures
        r == is_key_of(token@, hash@),
{
    !too_much(hash) && verify_password(token, hash)
}

/// Checks a token against a hash. Used by anyone wanting to confirm a stored
/// hash still matches their key.
pub fn verify_pair(token: &str, hash: &str) -> (r: Result<bool, String>)
    ensures
        (match r {
            Ok(ok) => Ok(ok),
            Err(m) => Err(m@),
        }) == pair_verdict(token@, hash@),
{
    match check_phc(hash) {
        Ok(_) => Ok(verify(token, hash)),
        Err(why) => {
            let mut m = "bad hash: ".to_owned();
            m.append(why.as_str());
            Err(m)
        },
    }
}

/// A hash that is not in the PHC string format, and why.
#[derive(Debug)]
pub struct BadHash {
    pub cause: String,
}

impl BadHash {
    pub fn message(&self) -> (r: String)
        ensures
            r@ == "not a valid Argon2 PHC string"@,
    {
        "not a valid Argon2 PHC string".to_owned()
    }
}

/// Whether a text is a hash in the PHC string format.
pub fn load_hash_check(hash: &str) -> (r: Result<(), BadHash>)
    ensures
        match crate::crypto::phc_error(hash@) {
            None => r is Ok,
            Some(why) => r is Err && r->Err_0.cause@ == why,
        },
{
    match check_phc(hash) {
        Ok(_) => Ok(()),
        Err(cause) => Err(BadHash { cause }),
    }
}

// ---------------------------------------------------------------------------
// Headers
// ---------------------------------------------------------------------------

/// One header of a request. Its value may be any bytes.
pub struct Header {
    pub name: String,
    pub value: Vec<u8>,
}

/// A header as the contracts speak of it.
pub ghost struct HeaderView {
    pub name: Seq<char>,
    pub value: Seq<u8>,
}

impl View for Header {
    type V = HeaderView;

    open spec fn view(&self) -> HeaderView {
        HeaderView { name: self.name@, value: self.value@ }
    }
}

/// Headers, each taken by its view.
pub open spec fn header_views(headers: Seq<Header>) -> Seq<HeaderView> {
    headers.map_values(|h: Header| h@)
}

/// Whether a byte of a header's value is printable text.
pub open spec fn is_visible(b: u8) -> bool {
    32 <= b < 127 || b == 9
}

/// A header's value as text; `None` where it holds anything that is not
/// printable ASCII.
pub open spec fn header_text(value: Seq<u8>) -> Option<Seq<char>> {
    if forall|i: int| 0 <= i < value.len() ==> is_visible(#[trigger] value[i]) {
        Some(value.map_values(|b: u8| b as char))
    } else {
        None
    }
}

/// The value of the first header of some name, as text. Header names do not
/// depend on case.
pub open spec fn header_named(headers: Seq<HeaderView>, name: Seq<char>) -> Option<Seq<char>>
    decreases headers.len(),
{
    if headers.len() == 0 {
        None
    } else if crate::text::lowered(headers[0].name) == name {
        header_text(headers[0].value)
    } else {
        header_named(headers.drop_first(), name)
    }
}

/// The token that a request presents.
pub open spec fn presented_token(headers: Seq<HeaderView>) -> Option<Seq<char>> {
    match header_named(headers, "x-api-key"@) {
        Some(v) if v.len() > 0 => Some(v),
        _ => match header_named(headers, "authorization"@) {
            Some(v) if "Bearer "@.is_prefix_of(v) && v.len() > 7 => Some(v.skip(7)),
            _ => None,
        },
    }
}

fn visible_text(value: &Vec<u8>) -> (r: Option<String>)
    ensures
        (match r {
            Some(s) => Some(s@),
            None => None,
        }) == header_text(value@),
{
    let mut s = String::new();
    let mut i: usize = 0;
    while i < value.len()
        invariant
            i <= value@.len(),
            forall|j: int| 0 <= j < i ==> is_visible(#[trigger] value@[j]),
            s@ == value@.take(i as int).map_values(|b: u8| b as char),
        decreases value.len() - i,
    {
        let b: u8 = value[i];
        if !((32 <= b && b < 127) || b == 9) {
            assert(!is_visible(value@[i as int]));
            return None;
        }
        s.push(b as char);
        i += 1;
        assert(value@.take(i as int).map_values(|b: u8| b as char) =~= value@.take(
            i - 1,
        ).map_values(|b: u8| b as char).push(b as char));
    }
    assert(value@.take(i as int) =~= value@);
    Some(s)
}

fn find_header(headers: &Vec<Header>, name: &str) -> (r: Option<String>)
    ensures
        (match r {
            Some(s) => Some(s@),
            None => None,
        }) == header_named(header_views(headers@), name@),
{
    let ghost all = header_views(headers@);
    let mut i: usize = 0;
    assert(all.skip(0) =~= all);
    while i < headers.len()
        invariant
            i <= headers@.len(),
            all == header_views(headers@),
            header_named(all, name@) == header_named(all.skip(i as int), name@),
        decreases headers.len() - i,
    {
        let ghost rest = all.skip(i as int);
        assert(rest[0] == headers@[i as int]@);
        if same(to_lower(headers[i].name.as_str()).as_str(), name) {
            return visible_text(&headers[i].value);
        }
        assert(rest.drop_first() =~= all.skip(i + 1));
        i += 1;
    }
    None
}

/// Reads the client token from the request headers.
///
/// `X-API-KEY` is what the UniFi Integration API itself uses, so drop-in
/// clients need no changes; `Authorization: Bearer` is accepted for everything
/// else.
pub fn token_from_headers(headers: &Vec<Header>) -> (r: Option<String>)
    ensures
        (match r {
            Some(s) => Some(s@),
            None => None,
        }) == presented_token(header_views(headers@)),
{
    if let Some(v) = find_header(headers, "x-api-key") {
        if !v.as_str().is_empty() {
            return Some(v);
        }
    }
    match find_header(headers, "authorization") {
        Some(v) => {
            let w = chars_of(v.as_str());
            if has_prefix(v.as_str(), "Bearer ") && w.len() > 7 {
                let r = slice_text(&w, 7, w.len());
                assert(r@ =~= v@.skip(7));
                Some(r)
            } else {
                None
            }
        },
        None => None,
    }
}

// ---------------------------------------------------------------------------
// Recognising
// ---------------------------------------------------------------------------

/// Whether a presented value is a token's own.
pub open spec fn answers_to(t: TokenView, presented: Seq<char>) -> bool {
    is_key_of(presented, t.hash)
}

/// The first of some tokens that a presented value is the value of.
pub open spec fn first_match(tokens: Seq<TokenView>, presented: Seq<char>) -> Option<nat>
    decreases tokens.len(),
{
    if tokens.len() == 0 {
        None
    } else {
        match first_match(tokens.drop_last(), presented) {
            Some(k) => Some(k),
            None => if answers_to(tokens.last(), presented) {
                Some((tokens.len() - 1) as nat)
            } else {
                None
            },
        }
    }
}

/// What a presented value is remembered under.
pub open spec fn memory_key(presented: Seq<char>) -> Seq<u8> {
    crate::crypto::sha256(encode_utf8(presented))
}

/// What is remembered under a key.
pub open spec fn remembered(cache: Seq<(Seq<u8>, nat)>, key: Seq<u8>) -> Option<nat>
    decreases cache.len(),
{
    if cache.len() == 0 {
        None
    } else if cache[0].0 == key {
        Some(cache[0].1)
    } else {
        remembered(cache.drop_first(), key)
    }
}

/// The authenticator as the contracts speak of it: the tokens, and which of them
/// each remembered value belongs to.
#[verifier::ext_equal]
pub ghost struct AuthView {
    pub tokens: Seq<TokenView>,
    pub cache: Seq<(Seq<u8>, nat)>,
}

impl AuthView {
    /// Whether an entry of the cache stands for a value that was verified.
    pub open spec fn stands_for_a_match(self, i: int) -> bool {
        exists|p: Seq<char>|
            #[trigger] memory_key(p) == self.cache[i].0 && first_match(self.tokens, p) == Some(
                self.cache[i].1,
            )
    }

    /// Whether everything that is remembered was verified once, and is remembered
    /// once.
    pub open spec fn sound(self) -> bool {
        &&& forall|i: int| 0 <= i < self.cache.len() ==> #[trigger] self.stands_for_a_match(i)
        &&& forall|i: int, j: int|
            0 <= i < j < self.cache.len() ==> (#[trigger] self.cache[i]).0 != (
            #[trigger] self.cache[j]).0
    }

    /// Which token a presented value is taken for.
    pub open spec fn lookup(self, presented: Seq<char>) -> Option<nat> {
        if presented.len() == 0 {
            None
        } else {
            match remembered(self.cache, memory_key(presented)) {
                Some(k) => Some(k),
                None => first_match(self.tokens, presented),
            }
        }
    }

    /// The authenticator after a value was presented.
    pub open spec fn after(self, presented: Seq<char>) -> AuthView {
        let key = memory_key(presented);
        if presented.len() == 0 || remembered(self.cache, key) is Some {
            self
        } else {
            match first_match(self.tokens, presented) {
                Some(k) => AuthView { cache: self.cache.push((key, k)), ..self },
                None => self,
            }
        }
    }
}

impl AuthView {
    /// The authenticator after some values were presented, one after the other.
    pub open spec fn after_all(self, presented: Seq<Seq<char>>) -> AuthView
        decreases presented.len(),
    {
        if presented.len() == 0 {
            self
        } else {
            self.after_all(presented.drop_last()).after(presented.last())
        }
    }

    /// An authenticator to which nothing was presented yet.
    pub open spec fn fresh(tokens: Seq<TokenView>) -> AuthView {
        AuthView { tokens, cache: seq![] }
    }
}

/// What is wrong with the first of some tokens whose hash cannot be read.
pub open spec fn hash_fault(tokens: Seq<TokenView>) -> Option<Seq<char>>
    decreases tokens.len(),
{
    if tokens.len() == 0 {
        None
    } else {
        match crate::crypto::phc_error(tokens[0].hash) {
            Some(why) => Some(
                "token '"@ + tokens[0].name + "' has an unparsable hash: "@ + why,
            ),
            None => hash_fault(tokens.drop_first()),
        }
    }
}

/// Verifies presented tokens against the configured Argon2id hashes.
///
/// Argon2 is intentionally slow, which is right for the failure path but would
/// add tens of milliseconds to every legitimate request. Successful
/// verifications are therefore memoised under a SHA-256 of the presented token;
/// the cache is bounded by the number of configured tokens because failures are
/// never cached, so a flood of invalid tokens still pays full Argon2 cost.
pub struct Authenticator {
    /// The tokens, whose hashes are all readable. Seeing to that at construction
    /// means a malformed hash is a startup failure rather than a per-request
    /// branch.
    tokens: Vec<TokenConfig>,
    cache: Vec<(Vec<u8>, usize)>,
}

/// The cache, each entry taken by its view.
pub open spec fn cache_view(cache: Seq<(Vec<u8>, usize)>) -> Seq<(Seq<u8>, nat)> {
    cache.map_values(|e: (Vec<u8>, usize)| (e.0@, e.1 as nat))
}

impl View for Authenticator {
    type V = AuthView;

    closed spec fn view(&self) -> AuthView {
        AuthView {
            tokens: crate::config::token_views(self.tokens@),
            cache: cache_view(self.cache@),
        }
    }
}

proof fn lemma_remembered_is_in_range(v: AuthView, cache: Seq<(Seq<u8>, nat)>, key: Seq<u8>)
    requires
        forall|i: int| 0 <= i < cache.len() ==> (#[trigger] cache[i]).1 < v.tokens.len(),
    ensures
        remembered(cache, key) matches Some(k) ==> k < v.tokens.len(),
    decreases cache.len(),
{
    if cache.len() > 0 {
        assert forall|i: int| 0 <= i < cache.drop_first().len() implies (
        #[trigger] cache.drop_first()[i]).1 < v.tokens.len() by {
            assert(cache.drop_first()[i] == cache[i + 1]);
        }
        lemma_remembered_is_in_range(v, cache.drop_first(), key);
    }
}

/// A value is only ever taken for one of the tokens.
pub proof fn lemma_lookup_is_in_range(v: AuthView, presented: Seq<char>)
    requires
        v.sound(),
    ensures
        v.lookup(presented) matches Some(k) ==> k < v.tokens.len(),
{
    assert forall|i: int| 0 <= i < v.cache.len() implies (#[trigger] v.cache[i]).1
        < v.tokens.len() by {
        assert(v.stands_for_a_match(i));
        let p = choose|p: Seq<char>|
            #[trigger] memory_key(p) == v.cache[i].0 && first_match(v.tokens, p) == Some(
                v.cache[i].1,
            );
        lemma_first_match_is_first(v.tokens, p);
    }
    lemma_remembered_is_in_range(v, v.cache, memory_key(presented));
    lemma_first_match_is_first(v.tokens, presented);
}

proof fn lemma_forgotten_is_no_entry(cache: Seq<(Seq<u8>, nat)>, key: Seq<u8>)
    requires
        remembered(cache, key) is None,
    ensures
        forall|i: int| 0 <= i < cache.len() ==> (#[trigger] cache[i]).0 != key,
    decreases cache.len(),
{
    if cache.len() > 0 {
        let rest = cache.drop_first();
        lemma_forgotten_is_no_entry(rest, key);
        assert forall|i: int| 0 <= i < cache.len() implies (#[trigger] cache[i]).0 != key by {
            if i > 0 {
                assert(rest[i - 1] == cache[i]);
            }
        }
    }
}

proof fn lemma_after_is_sound(v: AuthView, presented: Seq<char>)
    requires
        v.sound(),
    ensures
        v.after(presented).sound(),
{
    let w = v.after(presented);
    if remembered(v.cache, memory_key(presented)) is None {
        lemma_forgotten_is_no_entry(v.cache, memory_key(presented));
    }
    assert forall|i: int| 0 <= i < w.cache.len() implies #[trigger] w.stands_for_a_match(i) by {
        if i < v.cache.len() {
            assert(v.stands_for_a_match(i));
            let p = choose|p: Seq<char>|
                #[trigger] memory_key(p) == v.cache[i].0 && first_match(v.tokens, p) == Some(
                    v.cache[i].1,
                );
            assert(memory_key(p) == w.cache[i].0);
        } else {
            assert(memory_key(presented) == w.cache[i].0);
        }
    }
}

/// A presented value and the hashes that it is to be checked against, apart from
/// the authenticator, so that nothing has to wait for the checks.
pub struct Challenge {
    presented: String,
    hashes: Vec<String>,
}

/// A presented value and some hashes, as the contracts speak of them.
pub ghost struct ChallengeView {
    pub presented: Seq<char>,
    pub hashes: Seq<Seq<char>>,
}

impl View for Challenge {
    type V = ChallengeView;

    closed spec fn view(&self) -> ChallengeView {
        ChallengeView {
            presented: self.presented@,
            hashes: crate::text::texts(self.hashes@),
        }
    }
}

/// What came of checking a presented value against some hashes. The view leaves the
/// outcomes out: each of them is the true one.
pub struct Verdicts {
    presented: String,
    hashes: Vec<String>,
    outcomes: Vec<bool>,
}

impl View for Verdicts {
    type V = ChallengeView;

    closed spec fn view(&self) -> ChallengeView {
        ChallengeView {
            presented: self.presented@,
            hashes: crate::text::texts(self.hashes@),
        }
    }
}

impl Challenge {
    /// Every hash can be read.
    #[verifier::type_invariant]
    spec fn well_formed(self) -> bool {
        forall|i: int|
            0 <= i < self.hashes@.len() ==> crate::crypto::phc_error(
                (#[trigger] self.hashes@[i])@,
            ) is None
    }

    /// A value with nothing to check it against.
    pub fn idle(presented: &str) -> (r: Self)
        ensures
            r@ == (ChallengeView { presented: presented@, hashes: seq![] }),
    {
        let hashes: Vec<String> = Vec::new();
        assert(crate::text::texts(hashes@) =~= seq![]);
        Challenge { presented: presented.to_owned(), hashes }
    }

    /// Checks the value against every one of the hashes: the time taken does not
    /// depend on which of them it is the key of. This is the slow part.
    pub fn answer(self) -> (r: Verdicts)
        ensures
            r@ == self@,
    {
        proof {
            use_type_invariant(&self);
        }
        let Challenge { presented, hashes } = self;
        let mut outcomes: Vec<bool> = Vec::new();
        let mut i: usize = 0;
        while i < hashes.len()
            invariant
                i <= hashes@.len(),
                outcomes@.len() == i,
                forall|j: int|
                    0 <= j < hashes@.len() ==> crate::crypto::phc_error(
                        (#[trigger] hashes@[j])@,
                    ) is None,
                forall|j: int|
                    0 <= j < i ==> #[trigger] outcomes@[j] == is_key_of(presented@, hashes@[j]@),
            decreases hashes.len() - i,
        {
            assert(crate::crypto::phc_error(hashes@[i as int]@) is None);
            outcomes.push(verify(presented.as_str(), hashes[i].as_str()));
            i += 1;
        }
        Verdicts { presented, hashes, outcomes }
    }
}

impl Verdicts {
    /// Each verdict is the true one.
    #[verifier::type_invariant]
    spec fn well_formed(self) -> bool {
        &&& self.outcomes@.len() == self.hashes@.len()
        &&& forall|i: int|
            0 <= i < self.outcomes@.len() ==> #[trigger] self.outcomes@[i] == is_key_of(
                self.presented@,
                self.hashes@[i]@,
            )
    }

    /// Nothing was checked.
    pub fn none() -> (r: Self)
        ensures
            r@ == (ChallengeView { presented: seq![], hashes: seq![] }),
    {
        let hashes: Vec<String> = Vec::new();
        assert(crate::text::texts(hashes@) =~= seq![]);
        let presented = String::new();
        assert(presented@ =~= seq![]);
        Verdicts { presented, hashes, outcomes: Vec::new() }
    }

    /// What came of a check, where it was made.
    fn find(&self, presented: &str, hash: &str) -> (r: Option<bool>)
        ensures
            r matches Some(ok) ==> ok == is_key_of(presented@, hash@),
            r is Some <==> self@.presented == presented@ && self@.hashes.contains(hash@),
    {
        proof {
            use_type_invariant(self);
        }
        if !same(self.presented.as_str(), presented) {
            return None;
        }
        let mut i: usize = 0;
        while i < self.hashes.len()
            invariant
                i <= self.hashes@.len(),
                self.outcomes@.len() == self.hashes@.len(),
                self.presented@ == presented@,
                forall|j: int|
                    0 <= j < self.outcomes@.len() ==> #[trigger] self.outcomes@[j] == is_key_of(
                        self.presented@,
                        self.hashes@[j]@,
                    ),
                forall|j: int| 0 <= j < i ==> #[trigger] self@.hashes[j] != hash@,
            decreases self.hashes.len() - i,
        {
            if same(self.hashes[i].as_str(), hash) {
                assert(self@.hashes[i as int] == hash@);
                return Some(self.outcomes[i]);
            }
            i += 1;
        }
        None
    }
}

impl AuthView {
    /// What a presented value has to be checked against: every token's hash, unless
    /// the answer is known already.
    pub open spec fn challenge(self, presented: Seq<char>) -> ChallengeView {
        ChallengeView {
            presented,
            hashes: if presented.len() == 0 || remembered(
                self.cache,
                memory_key(presented),
            ) is Some {
                seq![]
            } else {
                self.tokens.map_values(|t: TokenView| t.hash)
            },
        }
    }
}

impl Authenticator {
    #[verifier::type_invariant]
    spec fn well_formed(self) -> bool {
        &&& self@.sound()
        &&& forall|i: int|
            0 <= i < self.tokens@.len() ==> crate::crypto::phc_error(
                (#[trigger] self.tokens@[i]).hash@,
            ) is None
    }

    /// An authenticator for some tokens, or what is wrong with the first of them
    /// whose hash cannot be read.
    pub fn new(tokens: &Vec<TokenConfig>) -> (r: Result<Self, String>)
        ensures
            match hash_fault(crate::config::token_views(tokens@)) {
                None => r is Ok && r->Ok_0@ == AuthView::fresh(crate::config::token_views(tokens@)),
                Some(m) => r is Err && r->Err_0@ == m,
            },
    {
        let ghost all = crate::config::token_views(tokens@);
        let mut kept: Vec<TokenConfig> = Vec::new();
        let mut i: usize = 0;
        assert(all.skip(0) =~= all);
        while i < tokens.len()
            invariant
                i <= tokens@.len(),
                all == crate::config::token_views(tokens@),
                hash_fault(all) == hash_fault(all.skip(i as int)),
                crate::config::token_views(kept@) == all.take(i as int),
                forall|j: int|
                    0 <= j < kept@.len() ==> crate::crypto::phc_error(
                        (#[trigger] kept@[j]).hash@,
                    ) is None,
            decreases tokens.len() - i,
        {
            let t = &tokens[i];
            let ghost rest = all.skip(i as int);
            assert(rest[0] == t@);
            if let Err(why) = check_phc(t.hash.as_str()) {
                let mut m = "token '".to_owned();
                m.append(t.name.as_str());
                m.append("' has an unparsable hash: ");
                m.append(why.as_str());
                return Err(m);
            }
            let ghost before = kept@;
            let copy = t.clone();
            assert(copy.hash@ == copy@.hash);
            kept.push(copy);
            i += 1;
            proof {
                assert(rest.drop_first() =~= all.skip(i as int));
                assert(crate::config::token_views(kept@) =~= crate::config::token_views(
                    before,
                ).push(all[i - 1]));
                assert(all.take(i as int) =~= all.take(i - 1).push(all[i - 1]));
            }
        }
        assert(all.take(i as int) =~= all);
        let cache: Vec<(Vec<u8>, usize)> = Vec::new();
        assert(cache_view(cache@) =~= seq![]);
        Ok(Authenticator { tokens: kept, cache })
    }

    /// How many values are remembered.
    pub fn remembers(&self) -> (r: usize)
        ensures
            r == self@.cache.len(),
    {
        self.cache.len()
    }

    fn recall(&self, key: &Vec<u8>) -> (r: Option<usize>)
        ensures
            match r {
                Some(k) => remembered(self@.cache, key@) == Some(k as nat),
                None => remembered(self@.cache, key@) is None,
            },
    {
        let ghost all = cache_view(self.cache@);
        let mut i: usize = 0;
        assert(all.skip(0) =~= all);
        while i < self.cache.len()
            invariant
                i <= self.cache@.len(),
                all == cache_view(self.cache@),
                remembered(all, key@) == remembered(all.skip(i as int), key@),
            decreases self.cache.len() - i,
        {
            let ghost rest = all.skip(i as int);
            assert(rest[0] == (self.cache@[i as int].0@, self.cache@[i as int].1 as nat));
            if same_bytes(&self.cache[i].0, key) {
                return Some(self.cache[i].1);
            }
            assert(rest.drop_first() =~= all.skip(i + 1));
            i += 1;
        }
        None
    }

    /// What a presented value has to be checked against before
    /// [`authenticate_with`](Self::authenticate_with) can answer at once.
    pub fn challenge(&self, presented: &str) -> (r: Challenge)
        ensures
            r@ == self@.challenge(presented@),
    {
        proof {
            use_type_invariant(self);
        }
        if presented.is_empty() {
            return Challenge::idle(presented);
        }
        let key = digest(presented.as_bytes());
        if self.recall(&key).is_some() {
            return Challenge::idle(presented);
        }
        let ghost all = self@.tokens.map_values(|t: TokenView| t.hash);
        let mut hashes: Vec<String> = Vec::new();
        let mut i: usize = 0;
        while i < self.tokens.len()
            invariant
                i <= self.tokens@.len(),
                all == self@.tokens.map_values(|t: TokenView| t.hash),
                self@.tokens == crate::config::token_views(self.tokens@),
                crate::text::texts(hashes@) == all.take(i as int),
                hashes@.len() == i,
                forall|j: int|
                    0 <= j < self.tokens@.len() ==> crate::crypto::phc_error(
                        (#[trigger] self.tokens@[j]).hash@,
                    ) is None,
                forall|j: int| 0 <= j < i ==> (#[trigger] hashes@[j])@ == self.tokens@[j].hash@,
            decreases self.tokens.len() - i,
        {
            let ghost before = hashes@;
            hashes.push(self.tokens[i].hash.as_str().to_owned());
            i += 1;
            proof {
                assert(all[i - 1] == self.tokens@[i - 1].hash@);
                assert(crate::text::texts(hashes@) =~= crate::text::texts(before).push(all[i - 1]));
                assert(all.take(i as int) =~= all.take(i - 1).push(all[i - 1]));
            }
        }
        assert(all.take(i as int) =~= all);
        assert forall|j: int| 0 <= j < hashes@.len() implies crate::crypto::phc_error(
            (#[trigger] hashes@[j])@,
        ) is None by {
            assert(crate::crypto::phc_error(self.tokens@[j].hash@) is None);
        }
        Challenge { presented: presented.to_owned(), hashes }
    }

    fn search(&self, presented: &str, known: &Verdicts) -> (r: Option<usize>)
        ensures
            match r {
                Some(k) => first_match(self@.tokens, presented@) == Some(k as nat),
                None => first_match(self@.tokens, presented@) is None,
            },
    {
        proof {
            use_type_invariant(self);
        }
        let ghost all = self@.tokens;
        // No early exit: every candidate is checked so the time taken does not
        // depend on which token happened to match.
        let mut found: Option<usize> = None;
        let mut i: usize = 0;
        while i < self.tokens.len()
            invariant
                i <= self.tokens@.len(),
                all == crate::config::token_views(self.tokens@),
                forall|j: int|
                    0 <= j < self.tokens@.len() ==> crate::crypto::phc_error(
                        (#[trigger] self.tokens@[j]).hash@,
                    ) is None,
                match found {
                    Some(k) => first_match(all.take(i as int), presented@) == Some(k as nat),
                    None => first_match(all.take(i as int), presented@) is None,
                },
            decreases self.tokens.len() - i,
        {
            assert(crate::crypto::phc_error(self.tokens@[i as int].hash@) is None);
            let ok = match known.find(presented, self.tokens[i].hash.as_str()) {
                Some(ok) => ok,
                None => verify(presented, self.tokens[i].hash.as_str()),
            };
            if ok && found.is_none() {
                found = Some(i);
            }
            i += 1;
            assert(all.take(i as int).drop_last() =~= all.take(i - 1));
        }
        assert(all.take(i as int) =~= all);
        found
    }

    /// The token that a presented value belongs to, or `None` if the value is
    /// unknown.
    pub fn authenticate(&mut self, presented: &str) -> (r: Option<TokenConfig>)
        ensures
            final(self)@ == old(self)@.after(presented@),
            final(self)@.sound(),
            match old(self)@.lookup(presented@) {
                Some(k) => {
                    &&& k < old(self)@.tokens.len()
                    &&& r is Some
                    &&& r->0@ == old(self)@.tokens[k as int]
                },
                None => r is None,
            },
    {
        self.authenticate_with(presented, &Verdicts::none())
    }

    /// The same, where some of the checks were already made: those are not made
    /// again.
    pub fn authenticate_with(&mut self, presented: &str, known: &Verdicts) -> (r: Option<
        TokenConfig,
    >)
        ensures
            final(self)@ == old(self)@.after(presented@),
            final(self)@.sound(),
            match old(self)@.lookup(presented@) {
                Some(k) => {
                    &&& k < old(self)@.tokens.len()
                    &&& r is Some
                    &&& r->0@ == old(self)@.tokens[k as int]
                },
                None => r is None,
            },
    {
        proof {
            use_type_invariant(&*self);
            lemma_lookup_is_in_range(self@, presented@);
            lemma_after_is_sound(self@, presented@);
        }
        if presented.is_empty() {
            return None;
        }
        let key = digest(presented.as_bytes());
        if let Some(k) = self.recall(&key) {
            return Some(self.tokens[k].clone());
        }
        let k: usize = match self.search(presented, known) {
            Some(k) => k,
            None => return None,
        };
        let ghost before = self@;
        let mut cache: Vec<(Vec<u8>, usize)> = Vec::new();
        assert(cache_view(cache@) =~= seq![]);
        std::mem::swap(&mut cache, &mut self.cache);
        let ghost entry = (key@, k as nat);
        let ghost all = cache@;
        cache.push((key, k));
        assert(cache_view(cache@) =~= cache_view(all).push(entry));
        assert(before.after(presented@).sound());
        self.cache = cache;
        Some(self.tokens[k].clone())
    }

    /// How a debug dump shows an authenticator: how many tokens it knows, not
    /// which.
    pub fn to_debug_string(&self) -> (r: String)
        ensures
            r@ == "Authenticator { tokens: "@ + crate::text::decimal(self@.tokens.len())
                + ", .. }"@,
    {
        let mut m = "Authenticator { tokens: ".to_owned();
        m.append(show_usize(self.tokens.len()).as_str());
        m.append(", .. }");
        m
    }
}

fn same_bytes(a: &Vec<u8>, b: &Vec<u8>) -> (r: bool)
    ensures
        r == (a@ == b@),
{
    if a.len() != b.len() {
        return false;
    }
    let mut i: usize = 0;
    while i < a.len()
        invariant
            i <= a@.len(),
            a@.len() == b@.len(),
            forall|j: int| 0 <= j < i ==> a@[j] == b@[j],
        decreases a.len() - i,
    {
        if a[i] != b[i] {
            return false;
        }
        i += 1;
    }
    assert(a@ =~= b@);
    true
}

// ---------------------------------------------------------------------------
// What holds of recognising
// ---------------------------------------------------------------------------

impl AuthView {
    /// Whether what is remembered is what was found of `values`, one after the
    /// other.
    pub open spec fn remembers(self, values: Seq<Seq<char>>) -> bool {
        &&& values.len() == self.cache.len()
        &&& forall|i: int|
            0 <= i < values.len() ==> memory_key(#[trigger] values[i]) == self.cache[i].0
                && first_match(self.tokens, values[i]) == Some(self.cache[i].1)
    }
}

/// A remembered answer is the one that a search would give, unless one of the
/// remembered values is another with the same digest.
pub proof fn a_remembered_answer_is_a_true_one(
    v: AuthView,
    values: Seq<Seq<char>>,
    presented: Seq<char>,
)
    requires
        v.remembers(values),
        presented.len() > 0,
        forall|i: int|
            0 <= i < values.len() && memory_key(#[trigger] values[i]) == memory_key(presented)
                ==> values[i] == presented,
    ensures
        v.lookup(presented) == first_match(v.tokens, presented),
{
    lemma_remembered_is_an_entry(v.cache, memory_key(presented));
    if remembered(v.cache, memory_key(presented)) is Some {
        let i = choose|i: int|
            0 <= i < v.cache.len() && #[trigger] v.cache[i] == (
                memory_key(presented),
                remembered(v.cache, memory_key(presented))->0,
            );
        assert(values[i] == presented);
    }
}

proof fn lemma_remembered_is_an_entry(cache: Seq<(Seq<u8>, nat)>, key: Seq<u8>)
    ensures
        remembered(cache, key) matches Some(k) ==> exists|i: int|
            0 <= i < cache.len() && #[trigger] cache[i] == (key, k),
    decreases cache.len(),
{
    if cache.len() > 0 && cache[0].0 != key {
        lemma_remembered_is_an_entry(cache.drop_first(), key);
        if let Some(k) = remembered(cache.drop_first(), key) {
            let i = choose|i: int|
                0 <= i < cache.drop_first().len() && #[trigger] cache.drop_first()[i] == (key, k);
            assert(cache[i + 1] == (key, k));
        }
    } else if cache.len() > 0 {
        assert(cache[0] == (key, cache[0].1));
    }
}

proof fn lemma_first_match_is_first(tokens: Seq<TokenView>, presented: Seq<char>)
    ensures
        match first_match(tokens, presented) {
            Some(k) => {
                &&& k < tokens.len()
                &&& answers_to(tokens[k as int], presented)
                &&& forall|j: int| 0 <= j < k ==> !answers_to(#[trigger] tokens[j], presented)
            },
            None => forall|j: int|
                0 <= j < tokens.len() ==> !answers_to(#[trigger] tokens[j], presented),
        },
    decreases tokens.len(),
{
    if tokens.len() > 0 {
        let front = tokens.drop_last();
        lemma_first_match_is_first(front, presented);
        assert forall|j: int| 0 <= j < front.len() implies answers_to(
            #[trigger] tokens[j],
            presented,
        ) == answers_to(front[j], presented) by {
            assert(front[j] == tokens[j]);
        }
    }
}

/// What is remembered of some values is what was found of some of them.
proof fn lemma_remembers_some(tokens: Seq<TokenView>, earlier: Seq<Seq<char>>) -> (values: Seq<
    Seq<char>,
>)
    ensures
        AuthView::fresh(tokens).after_all(earlier).tokens == tokens,
        AuthView::fresh(tokens).after_all(earlier).sound(),
        AuthView::fresh(tokens).after_all(earlier).remembers(values),
        forall|i: int| 0 <= i < values.len() ==> earlier.contains(#[trigger] values[i]),
    decreases earlier.len(),
{
    if earlier.len() == 0 {
        seq![]
    } else {
        let front = earlier.drop_last();
        let v = AuthView::fresh(tokens).after_all(front);
        let w = v.after(earlier.last());
        let had = lemma_remembers_some(tokens, front);
        lemma_after_is_sound(v, earlier.last());
        let values = if w == v {
            had
        } else {
            had.push(earlier.last())
        };
        assert forall|i: int| 0 <= i < values.len() implies earlier.contains(
            #[trigger] values[i],
        ) by {
            if i < had.len() {
                assert(front.contains(had[i]));
                let j = choose|j: int| 0 <= j < front.len() && front[j] == had[i];
                assert(earlier[j] == had[i]);
            } else {
                assert(earlier[earlier.len() - 1] == values[i]);
            }
        }
        values
    }
}

/// Where no hash has a fault, every hash can be read.
pub proof fn lemma_hashes_are_readable(tokens: Seq<TokenView>)
    requires
        hash_fault(tokens) is None,
    ensures
        forall|i: int|
            0 <= i < tokens.len() ==> crate::crypto::phc_error(
                (#[trigger] tokens[i]).hash,
            ) is None,
    decreases tokens.len(),
{
    if tokens.len() > 0 {
        let rest = tokens.drop_first();
        lemma_hashes_are_readable(rest);
        assert forall|i: int| 0 <= i < tokens.len() implies crate::crypto::phc_error(
            (#[trigger] tokens[i]).hash,
        ) is None by {
            if i > 0 {
                assert(rest[i - 1] == tokens[i]);
            }
        }
    }
}

/// Remembering is invisible: whatever was presented before, a value is recognised
/// exactly where it is not empty and some token's hash verifies it, and it is
/// taken for the first such token. This is where no other of the values presented
/// before has the same digest.
pub proof fn a_value_is_taken_for_the_first_token_that_verifies_it(
    tokens: Seq<TokenView>,
    earlier: Seq<Seq<char>>,
    presented: Seq<char>,
)
    requires
        hash_fault(tokens) is None,
        forall|i: int|
            0 <= i < earlier.len() && memory_key(#[trigger] earlier[i]) == memory_key(presented)
                ==> earlier[i] == presented,
    ensures
        match AuthView::fresh(tokens).after_all(earlier).lookup(presented) {
            Some(k) => {
                &&& presented.len() > 0
                &&& k < tokens.len()
                &&& pair_verdict(presented, tokens[k as int].hash) == Ok::<bool, Seq<char>>(true)
                &&& forall|j: int|
                    0 <= j < k ==> pair_verdict(presented, (#[trigger] tokens[j]).hash) == Ok::<
                        bool,
                        Seq<char>,
                    >(false)
            },
            None => presented.len() == 0 || forall|j: int|
                0 <= j < tokens.len() ==> pair_verdict(presented, (#[trigger] tokens[j]).hash)
                    == Ok::<bool, Seq<char>>(false),
        },
{
    let values = lemma_remembers_some(tokens, earlier);
    lemma_hashes_are_readable(tokens);
    lemma_first_match_is_first(tokens, presented);
    assert forall|j: int| 0 <= j < tokens.len() implies pair_verdict(
        presented,
        (#[trigger] tokens[j]).hash,
    ) == Ok::<bool, Seq<char>>(answers_to(tokens[j], presented)) by {}
    if presented.len() > 0 {
        assert forall|i: int|
            0 <= i < values.len() && memory_key(#[trigger] values[i]) == memory_key(
                presented,
            ) implies values[i] == presented by {
            assert(earlier.contains(values[i]));
        }
        a_remembered_answer_is_a_true_one(
            AuthView::fresh(tokens).after_all(earlier),
            values,
            presented,
        );
    }
}

/// A value that is refused leaves nothing behind, so that a flood of them neither
/// fills the memory nor gets any cheaper.
pub proof fn a_refused_value_is_not_remembered(v: AuthView, presented: Seq<char>)
    requires
        v.lookup(presented) is None,
    ensures
        v.after(presented) == v,
{
}

/// Whatever was presented, no more is remembered than there are tokens, where no
/// two of the values presented were found to be of one token.
pub proof fn what_is_remembered_is_bounded_by_the_tokens(
    tokens: Seq<TokenView>,
    earlier: Seq<Seq<char>>,
)
    requires
        forall|i: int, j: int|
            0 <= i < earlier.len() && 0 <= j < earlier.len() && first_match(
                tokens,
                #[trigger] earlier[i],
            ) is Some && first_match(tokens, earlier[i]) == first_match(
                tokens,
                #[trigger] earlier[j],
            ) ==> earlier[i] == earlier[j],
    ensures
        AuthView::fresh(tokens).after_all(earlier).cache.len() <= tokens.len(),
{
    let v = AuthView::fresh(tokens).after_all(earlier);
    let values = lemma_remembers_some(tokens, earlier);
    let owners = Seq::new(v.cache.len(), |i: int| v.cache[i].1 as int);
    let all = vstd::set_lib::set_int_range(0, tokens.len() as int);
    vstd::set_lib::lemma_int_range(0, tokens.len() as int);
    assert forall|i: int| 0 <= i < owners.len() implies all.contains(#[trigger] owners[i]) by {
        lemma_first_match_is_first(tokens, values[i]);
    }
    assert forall|i: int, j: int| 0 <= i < j < owners.len() implies owners[i] != owners[j] by {
        assert(earlier.contains(values[i]) && earlier.contains(values[j]));
        if owners[i] == owners[j] {
            assert(values[i] == values[j]);
            assert(v.cache[i].0 == v.cache[j].0);
        }
    }
    assert(owners.no_duplicates());
    owners.unique_seq_to_set();
    assert(owners.to_set().subset_of(all));
    vstd::set_lib::lemma_len_subset(owners.to_set(), all);
}

proof fn lemma_remembered_push(cache: Seq<(Seq<u8>, nat)>, entry: (Seq<u8>, nat), key: Seq<u8>)
    ensures
        remembered(cache.push(entry), key) == (match remembered(cache, key) {
            Some(k) => Some(k),
            None => if entry.0 == key {
                Some(entry.1)
            } else {
                None
            },
        }),
    decreases cache.len(),
{
    let pushed = cache.push(entry);
    if cache.len() == 0 {
        assert(pushed.drop_first() =~= seq![]);
        assert(remembered(pushed.drop_first(), key) is None);
    } else {
        assert(pushed.drop_first() =~= cache.drop_first().push(entry));
        lemma_remembered_push(cache.drop_first(), entry, key);
    }
}

/// Presenting a value does not change what it, or any value with another digest,
/// is taken for.
pub proof fn recognising_is_stable(v: AuthView, presented: Seq<char>, other: Seq<char>)
    requires
        other == presented || memory_key(other) != memory_key(presented),
    ensures
        v.after(presented).lookup(other) == v.lookup(other),
{
    if let Some(k) = first_match(v.tokens, presented) {
        lemma_remembered_push(v.cache, (memory_key(presented), k), memory_key(other));
    }
}

// ---------------------------------------------------------------------------
// Judging self-chosen keys
// ---------------------------------------------------------------------------

/// Fewest characters of a self-chosen key.
pub const MIN_KEY_LENGTH: usize = 16;

/// Fewest distinct characters of a self-chosen key.
pub const MIN_DISTINCT: usize = 8;

/// Minimum estimated entropy for a self-chosen key, in bits.
///
/// 80 bits is far past anything guessable online, while still allowing a
/// memorable four-or-five-word passphrase. Generated tokens carry 256.
pub const MIN_ENTROPY_BITS: u64 = 80;

/// What the entropy of a key is estimated from: a key of `length` characters
/// drawn from `pool` of them has `length * log2(pool)` bits.
#[derive(Debug, Clone, Copy, PartialEq, Eq, Structural)]
pub struct Strength {
    pub length: usize,
    pub pool: u32,
}

pub open spec fn some_lower(s: Seq<char>) -> bool {
    exists|i: int| 0 <= i < s.len() && crate::text::is_lower(#[trigger] s[i])
}

pub open spec fn some_upper(s: Seq<char>) -> bool {
    exists|i: int| 0 <= i < s.len() && crate::text::is_upper(#[trigger] s[i])
}

pub open spec fn some_digit(s: Seq<char>) -> bool {
    exists|i: int| 0 <= i < s.len() && crate::text::is_digit(#[trigger] s[i])
}

pub open spec fn some_other(s: Seq<char>) -> bool {
    exists|i: int| 0 <= i < s.len() && !crate::text::is_alphanumeric(#[trigger] s[i])
}

/// How many characters the classes that occur in a key hold together.
pub open spec fn pool_size(s: Seq<char>) -> u32 {
    ((if some_lower(s) {
        26int
    } else {
        0
    }) + (if some_upper(s) {
        26int
    } else {
        0
    }) + (if some_digit(s) {
        10int
    } else {
        0
    }) + (if some_other(s) {
        33int
    } else {
        0
    })) as u32
}

/// `base` to the power of `exponent`.
pub open spec fn power(base: nat, exponent: nat) -> nat
    decreases exponent,
{
    if exponent == 0 {
        1
    } else {
        base * power(base, (exponent - 1) as nat)
    }
}

/// Whether an estimate falls short: fewer keys than there are of 80 random bits.
pub open spec fn falls_short(length: nat, pool: nat) -> bool {
    power(pool, length) < power(2, MIN_ENTROPY_BITS as nat)
}

/// Whether `n` is an estimate in bits, rounded to the nearest integer.
pub open spec fn rounds_to(length: nat, pool: nat, n: nat) -> bool {
    &&& n > 0
    &&& power(2, (2 * n - 1) as nat) <= power(pool, 2 * length)
    &&& power(pool, 2 * length) < power(2, 2 * n + 1)
}

/// Whether a self-chosen key is refused for its length, its variety or its
/// estimated entropy, and what is said of it then.
pub open spec fn refused_key(token: Seq<char>, m: Seq<char>) -> bool {
    if token.len() < MIN_KEY_LENGTH {
        m == "too short: "@ + crate::text::decimal(token.len())
            + " characters, at least 16 are required"@
    } else if token.to_set().len() < MIN_DISTINCT {
        m == "only "@ + crate::text::decimal(token.to_set().len())
            + " distinct characters — a repetitive key is weak however long it is"@
    } else {
        falls_short(token.len(), pool_size(token) as nat) && exists|n: nat|
            #[trigger] rounds_to(token.len(), pool_size(token) as nat, n) && m == "roughly "@
                + crate::text::decimal(n)
                + " bits of entropy, 80 are required — make it longer or mix in more character classes"@
    }
}

/// Whether a self-chosen key is good enough.
pub open spec fn is_strong(token: Seq<char>) -> bool {
    &&& token.len() >= MIN_KEY_LENGTH
    &&& token.to_set().len() >= MIN_DISTINCT
    &&& !falls_short(token.len(), pool_size(token) as nat)
}

proof fn lemma_power_grows(base: nat, a: nat, b: nat)
    requires
        base >= 1,
        a <= b,
    ensures
        1 <= power(base, a) <= power(base, b),
    decreases b,
{
    if a < b {
        lemma_power_grows(base, a, (b - 1) as nat);
        let p = power(base, (b - 1) as nat);
        assert(base * p >= p) by (nonlinear_arith)
            requires
                base >= 1,
        ;
    } else if b > 0 {
        lemma_power_grows(base, (a - 1) as nat, (b - 1) as nat);
        let p = power(base, (b - 1) as nat);
        assert(base * p >= p) by (nonlinear_arith)
            requires
                base >= 1,
        ;
    }
}

proof fn lemma_power_grows_with_base(small: nat, large: nat, e: nat)
    requires
        small <= large,
    ensures
        power(small, e) <= power(large, e),
    decreases e,
{
    if e > 0 {
        lemma_power_grows_with_base(small, large, (e - 1) as nat);
        let p = power(small, (e - 1) as nat);
        let q = power(large, (e - 1) as nat);
        assert(small * p <= large * q) by (nonlinear_arith)
            requires
                small <= large,
                p <= q,
        ;
    }
}

proof fn lemma_pools(s: Seq<char>)
    requires
        s.len() > 0,
    ensures
        pool_size(s) == 10 || pool_size(s) == 26 || 33 <= pool_size(s) <= 95,
{
    let c = s[0];
    if crate::text::is_lower(c) {
        assert(some_lower(s));
    } else if crate::text::is_upper(c) {
        assert(some_upper(s));
    } else if crate::text::is_digit(c) {
        assert(some_digit(s));
    } else {
        assert(some_other(s));
    }
}

proof fn lemma_power_sum(base: nat, a: nat, p: nat, b: nat, q: nat)
    requires
        power(base, a) == p,
        power(base, b) == q,
    ensures
        power(base, a + b) == p * q,
    decreases a,
{
    if a > 0 {
        let rest = power(base, (a - 1) as nat);
        lemma_power_sum(base, (a - 1) as nat, rest, b, q);
        assert(base * (rest * q) == (base * rest) * q) by (nonlinear_arith);
        assert((a - 1) as nat + b == (a + b - 1) as nat);
        assert(power(base, a + b) == base * power(base, (a + b - 1) as nat));
        assert(p == base * rest);
    } else {
        assert(p == 1);
    }
}

proof fn lemma_powers_of_two()
    ensures
        power(2, 80) == 1208925819614629174706176nat,
        power(2, 105) == 40564819207303340847894502572032nat,
        power(2, 107) == 162259276829213363391578010288128nat,
        power(2, 111) == 2596148429267413814265248164610048nat,
        power(2, 113) == 10384593717069655257060992658440192nat,
        power(2, 119) == 664613997892457936451903530140172288nat,
        power(2, 121) == 2658455991569831745807614120560689152nat,
        power(2, 125) == 42535295865117307932921825928971026432nat,
        power(2, 127) == 170141183460469231731687303715884105728nat,
        power(2, 131) == 2722258935367507707706996859454145691648nat,
        power(2, 133) == 10889035741470030830827987437816582766592nat,
        power(2, 139) == 696898287454081973172991196020261297061888nat,
        power(2, 141) == 2787593149816327892691964784081045188247552nat,
        power(2, 145) == 44601490397061246283071436545296723011960832nat,
        power(2, 147) == 178405961588244985132285746181186892047843328nat,
        power(2, 149) == 713623846352979940529142984724747568191373312nat,
        power(2, 151) == 2854495385411919762116571938898990272765493248nat,
        power(2, 153) == 11417981541647679048466287755595961091061972992nat,
        power(2, 159) == 730750818665451459101842416358141509827966271488nat,
        power(2, 161) == 2923003274661805836407369665432566039311865085952nat,
{
    reveal_with_fuel(power, 11);
    assert(power(2, 2) == 4nat);
    assert(power(2, 5) == 32nat);
    assert(power(2, 10) == 1024nat);
    lemma_power_sum(2, 10, 1024nat, 10, 1024nat);
    lemma_power_sum(2, 20, 1048576nat, 20, 1048576nat);
    lemma_power_sum(2, 40, 1099511627776nat, 40, 1099511627776nat);
    lemma_power_sum(2, 80, 1208925819614629174706176nat, 20, 1048576nat);
    lemma_power_sum(2, 100, 1267650600228229401496703205376nat, 5, 32nat);
    lemma_power_sum(2, 105, 40564819207303340847894502572032nat, 2, 4nat);
    lemma_power_sum(2, 107, 162259276829213363391578010288128nat, 2, 4nat);
    lemma_power_sum(2, 109, 649037107316853453566312041152512nat, 2, 4nat);
    lemma_power_sum(2, 111, 2596148429267413814265248164610048nat, 2, 4nat);
    lemma_power_sum(2, 113, 10384593717069655257060992658440192nat, 2, 4nat);
    lemma_power_sum(2, 115, 41538374868278621028243970633760768nat, 2, 4nat);
    lemma_power_sum(2, 117, 166153499473114484112975882535043072nat, 2, 4nat);
    lemma_power_sum(2, 119, 664613997892457936451903530140172288nat, 2, 4nat);
    lemma_power_sum(2, 121, 2658455991569831745807614120560689152nat, 2, 4nat);
    lemma_power_sum(2, 123, 10633823966279326983230456482242756608nat, 2, 4nat);
    lemma_power_sum(2, 125, 42535295865117307932921825928971026432nat, 2, 4nat);
    lemma_power_sum(2, 127, 170141183460469231731687303715884105728nat, 2, 4nat);
    lemma_power_sum(2, 129, 680564733841876926926749214863536422912nat, 2, 4nat);
    lemma_power_sum(2, 131, 2722258935367507707706996859454145691648nat, 2, 4nat);
    lemma_power_sum(2, 133, 10889035741470030830827987437816582766592nat, 2, 4nat);
    lemma_power_sum(2, 135, 43556142965880123323311949751266331066368nat, 2, 4nat);
    lemma_power_sum(2, 137, 174224571863520493293247799005065324265472nat, 2, 4nat);
    lemma_power_sum(2, 139, 696898287454081973172991196020261297061888nat, 2, 4nat);
    lemma_power_sum(2, 141, 2787593149816327892691964784081045188247552nat, 2, 4nat);
    lemma_power_sum(2, 143, 11150372599265311570767859136324180752990208nat, 2, 4nat);
    lemma_power_sum(2, 145, 44601490397061246283071436545296723011960832nat, 2, 4nat);
    lemma_power_sum(2, 147, 178405961588244985132285746181186892047843328nat, 2, 4nat);
    lemma_power_sum(2, 149, 713623846352979940529142984724747568191373312nat, 2, 4nat);
    lemma_power_sum(2, 151, 2854495385411919762116571938898990272765493248nat, 2, 4nat);
    lemma_power_sum(2, 153, 11417981541647679048466287755595961091061972992nat, 2, 4nat);
    lemma_power_sum(2, 155, 45671926166590716193865151022383844364247891968nat, 2, 4nat);
    lemma_power_sum(2, 157, 182687704666362864775460604089535377456991567872nat, 2, 4nat);
    lemma_power_sum(2, 159, 730750818665451459101842416358141509827966271488nat, 2, 4nat);
}

proof fn lemma_powers_of_ten()
    ensures
        power(10, 24) == 1000000000000000000000000nat,
        power(10, 25) == 10000000000000000000000000nat,
        power(10, 32) == 100000000000000000000000000000000nat,
        power(10, 34) == 10000000000000000000000000000000000nat,
        power(10, 36) == 1000000000000000000000000000000000000nat,
        power(10, 38) == 100000000000000000000000000000000000000nat,
        power(10, 40) == 10000000000000000000000000000000000000000nat,
        power(10, 42) == 1000000000000000000000000000000000000000000nat,
        power(10, 44) == 100000000000000000000000000000000000000000000nat,
        power(10, 46) == 10000000000000000000000000000000000000000000000nat,
        power(10, 48) == 1000000000000000000000000000000000000000000000000nat,
{
    reveal_with_fuel(power, 9);
    assert(power(10, 1) == 10nat);
    assert(power(10, 2) == 100nat);
    assert(power(10, 8) == 100000000nat);
    lemma_power_sum(10, 8, 100000000nat, 8, 100000000nat);
    lemma_power_sum(10, 16, 10000000000000000nat, 8, 100000000nat);
    lemma_power_sum(10, 24, 1000000000000000000000000nat, 1, 10nat);
    lemma_power_sum(10, 16, 10000000000000000nat, 16, 10000000000000000nat);
    lemma_power_sum(10, 32, 100000000000000000000000000000000nat, 2, 100nat);
    lemma_power_sum(10, 34, 10000000000000000000000000000000000nat, 2, 100nat);
    lemma_power_sum(10, 36, 1000000000000000000000000000000000000nat, 2, 100nat);
    lemma_power_sum(10, 38, 100000000000000000000000000000000000000nat, 2, 100nat);
    lemma_power_sum(10, 40, 10000000000000000000000000000000000000000nat, 2, 100nat);
    lemma_power_sum(10, 42, 1000000000000000000000000000000000000000000nat, 2, 100nat);
    lemma_power_sum(10, 44, 100000000000000000000000000000000000000000000nat, 2, 100nat);
    lemma_power_sum(10, 46, 10000000000000000000000000000000000000000000000nat, 2, 100nat);
}

proof fn lemma_powers_of_the_letters()
    ensures
        power(26, 17) == 1133827315385150725554176nat,
        power(26, 18) == 29479510200013918864408576nat,
        power(26, 32) == 1901722457268488241418827816020396748021170176nat,
        power(26, 34) == 1285564381113498051199127603629788201662311038976nat,
{
    reveal_with_fuel(power, 5);
    assert(power(26, 1) == 26nat);
    assert(power(26, 2) == 676nat);
    assert(power(26, 4) == 456976nat);
    lemma_power_sum(26, 4, 456976nat, 4, 456976nat);
    lemma_power_sum(26, 8, 208827064576nat, 8, 208827064576nat);
    lemma_power_sum(26, 16, 43608742899428874059776nat, 1, 26nat);
    lemma_power_sum(26, 16, 43608742899428874059776nat, 2, 676nat);
    lemma_power_sum(26, 16, 43608742899428874059776nat, 16, 43608742899428874059776nat);
    lemma_power_sum(26, 32, 1901722457268488241418827816020396748021170176nat, 2, 676nat);
}

proof fn lemma_powers_of_the_signs()
    ensures
        power(33, 16) == 1977985201462558877934081nat,
{
    reveal_with_fuel(power, 5);
    assert(power(33, 4) == 1185921nat);
    lemma_power_sum(33, 4, 1185921nat, 4, 1185921nat);
    lemma_power_sum(33, 8, 1406408618241nat, 8, 1406408618241nat);
}

/// How many bits short keys of one small class come to, rounded.
fn short_estimate(length: usize, pool: u32) -> (r: u64)
    requires
        (pool == 26 && 16 <= length < 18) || (pool == 10 && 16 <= length < 25),
    ensures
        rounds_to(length as nat, pool as nat, r as nat),
{
    let n: u64 = if pool == 26 {
        if length == 16 {
            75
        } else {
            80
        }
    } else if length == 16 {
        53
    } else if length == 17 {
        56
    } else if length == 18 {
        60
    } else if length == 19 {
        63
    } else if length == 20 {
        66
    } else if length == 21 {
        70
    } else if length == 22 {
        73
    } else if length == 23 {
        76
    } else {
        80
    };
    proof {
        lemma_powers_of_two();
        lemma_powers_of_ten();
        lemma_powers_of_the_letters();
    }
    n
}

proof fn lemma_which_fall_short(length: nat, pool: nat)
    requires
        length >= 16,
        pool == 10 || pool == 26 || pool >= 33,
    ensures
        falls_short(length, pool) <==> (pool == 26 && length < 18) || (pool == 10 && length < 25),
{
    let goal = power(2, 80);
    lemma_powers_of_two();
    lemma_powers_of_ten();
    lemma_powers_of_the_letters();
    lemma_powers_of_the_signs();
    if pool >= 33 {
        lemma_power_grows_with_base(33, pool, 16);
        lemma_power_grows(pool, 16, length);
    } else if pool == 26 {
        if length >= 18 {
            lemma_power_grows(26, 18, length);
        } else {
            lemma_power_grows(26, length, 17);
        }
    } else {
        if length >= 25 {
            lemma_power_grows(10, 25, length);
        } else {
            lemma_power_grows(10, length, 24);
        }
    }
}

fn measure_pool(v: &Vec<char>) -> (r: u32)
    ensures
        r == pool_size(v@),
{
    let mut lowers = false;
    let mut uppers = false;
    let mut digits = false;
    let mut others = false;
    let mut i: usize = 0;
    while i < v.len()
        invariant
            i <= v@.len(),
            lowers == some_lower(v@.take(i as int)),
            uppers == some_upper(v@.take(i as int)),
            digits == some_digit(v@.take(i as int)),
            others == some_other(v@.take(i as int)),
        decreases v.len() - i,
    {
        let c = v[i];
        let ghost before = v@.take(i as int);
        let ghost now = v@.take(i + 1);
        lowers = lowers || lower(c);
        uppers = uppers || upper(c);
        digits = digits || digit(c);
        others = others || !alphanumeric(c);
        proof {
            assert(now[i as int] == c);
            assert(forall|j: int| 0 <= j < i ==> now[j] == before[j]);
            if some_lower(before) {
                let j = choose|j: int|
                    0 <= j < before.len() && crate::text::is_lower(#[trigger] before[j]);
                assert(crate::text::is_lower(now[j]));
            }
            if some_upper(before) {
                let j = choose|j: int|
                    0 <= j < before.len() && crate::text::is_upper(#[trigger] before[j]);
                assert(crate::text::is_upper(now[j]));
            }
            if some_digit(before) {
                let j = choose|j: int|
                    0 <= j < before.len() && crate::text::is_digit(#[trigger] before[j]);
                assert(crate::text::is_digit(now[j]));
            }
            if some_other(before) {
                let j = choose|j: int|
                    0 <= j < before.len() && !crate::text::is_alphanumeric(#[trigger] before[j]);
                assert(!crate::text::is_alphanumeric(now[j]));
            }
        }
        i += 1;
    }
    assert(v@.take(i as int) =~= v@);
    let mut pool: u32 = 0;
    if lowers {
        pool += 26;
    }
    if uppers {
        pool += 26;
    }
    if digits {
        pool += 10;
    }
    if others {
        pool += 33;
    }
    pool
}

fn occurs(c: char, v: &Vec<char>) -> (r: bool)
    ensures
        r == v@.contains(c),
{
    let mut i: usize = 0;
    while i < v.len()
        invariant
            i <= v@.len(),
            forall|j: int| 0 <= j < i ==> v@[j] != c,
        decreases v.len() - i,
    {
        if v[i] == c {
            return true;
        }
        i += 1;
    }
    false
}

fn count_distinct(v: &Vec<char>) -> (r: usize)
    ensures
        r == v@.to_set().len(),
{
    let mut seen: Vec<char> = Vec::new();
    let mut i: usize = 0;
    assert(seen@.to_set() =~= v@.take(0).to_set());
    while i < v.len()
        invariant
            i <= v@.len(),
            seen@.no_duplicates(),
            seen@.to_set() == v@.take(i as int).to_set(),
        decreases v.len() - i,
    {
        let c = v[i];
        let ghost before = seen@;
        let ghost part = v@.take(i as int);
        let known = occurs(c, &seen);
        if !known {
            seen.push(c);
        }
        i += 1;
        proof {
            assert(v@.take(i as int) =~= part.push(c));
            part.lemma_push_to_set_commute(c);
            before.lemma_push_to_set_commute(c);
            if known {
                assert(before.to_set().contains(c));
                assert(before.to_set().insert(c) =~= before.to_set());
            }
        }
    }
    proof {
        assert(v@.take(i as int) =~= v@);
        seen@.unique_seq_to_set();
    }
    seen.len()
}

/// Judges a self-chosen API key and explains itself when it says no.
///
/// Custom keys are supported because operators often have their own secret
/// management, but an API key in front of a UniFi console is not a place for
/// `letmein`. The estimate is the classic pool-size model, deliberately
/// pessimistic, plus a distinct-character floor so that a long run of one
/// character cannot score well.
pub fn assess_strength(token: &str) -> (r: Result<Strength, String>)
    ensures
        match r {
            Ok(strength) => {
                &&& is_strong(token@)
                &&& strength.length == token@.len()
                &&& strength.pool == pool_size(token@)
            },
            Err(m) => !is_strong(token@) && refused_key(token@, m@),
        },
{
    let v = chars_of(token);
    let length: usize = v.len();
    if length < MIN_KEY_LENGTH {
        let mut m = "too short: ".to_owned();
        m.append(show_usize(length).as_str());
        m.append(" characters, at least 16 are required");
        return Err(m);
    }
    let pool: u32 = measure_pool(&v);
    let distinct: usize = count_distinct(&v);
    if distinct < MIN_DISTINCT {
        let mut m = "only ".to_owned();
        m.append(show_usize(distinct).as_str());
        m.append(" distinct characters — a repetitive key is weak however long it is");
        return Err(m);
    }
    proof {
        lemma_pools(token@);
        lemma_which_fall_short(length as nat, pool as nat);
    }
    if (pool == 26 && length < 18) || (pool == 10 && length < 25) {
        let bits: u64 = short_estimate(length, pool);
        let mut m = "roughly ".to_owned();
        m.append(show(bits).as_str());
        m.append(
            " bits of entropy, 80 are required — make it longer or mix in more character classes",
        );
        assert(rounds_to(token@.len(), pool_size(token@) as nat, bits as nat));
        return Err(m);
    }
    Ok(Strength { length, pool })
}

// ---------------------------------------------------------------------------
// What holds of presented tokens
// ---------------------------------------------------------------------------

/// Whether a header is the first of its name, in whatever case that is written.
pub open spec fn is_first_named(headers: Seq<HeaderView>, i: int, name: Seq<char>) -> bool {
    &&& 0 <= i < headers.len()
    &&& crate::text::lowered(headers[i].name) == name
    &&& forall|j: int|
        0 <= j < i ==> crate::text::lowered((#[trigger] headers[j]).name) != name
}

/// Whether bytes are a text of printable ASCII, tabs among it.
pub open spec fn spells(value: Seq<u8>, s: Seq<char>) -> bool {
    &&& value.len() == s.len()
    &&& forall|k: int|
        0 <= k < value.len() ==> (32 <= #[trigger] value[k] <= 126 || value[k] == 9) && s[k]
            == value[k] as char
}

proof fn lemma_header_text(value: Seq<u8>, s: Seq<char>)
    ensures
        header_text(value) == Some(s) <==> spells(value, s),
{
    if header_text(value) is Some && spells(value, s) {
        assert(header_text(value)->0 =~= s);
    }
    if spells(value, s) {
        assert forall|i: int| 0 <= i < value.len() implies is_visible(#[trigger] value[i]) by {}
        assert(header_text(value)->0 =~= s);
    }
    if header_text(value) == Some(s) {
        assert forall|k: int| 0 <= k < value.len() implies (32 <= #[trigger] value[k] <= 126
            || value[k] == 9) && s[k] == value[k] as char by {
            assert(is_visible(value[k]));
        }
    }
}

proof fn lemma_header_named(headers: Seq<HeaderView>, name: Seq<char>)
    ensures
        (exists|i: int| #[trigger]
            is_first_named(headers, i, name) && header_named(headers, name) == header_text(
                headers[i].value,
            )) || (header_named(headers, name) is None && forall|i: int|
            0 <= i < headers.len() ==> crate::text::lowered((#[trigger] headers[i]).name) != name),
    decreases headers.len(),
{
    if headers.len() > 0 {
        if crate::text::lowered(headers[0].name) == name {
            assert(is_first_named(headers, 0, name));
        } else {
            let rest = headers.drop_first();
            lemma_header_named(rest, name);
            if exists|i: int| #[trigger]
                is_first_named(rest, i, name) && header_named(rest, name) == header_text(
                    rest[i].value,
                ) {
                let i = choose|i: int| #[trigger]
                    is_first_named(rest, i, name) && header_named(rest, name) == header_text(
                        rest[i].value,
                    );
                assert(headers[i + 1] == rest[i]);
                assert forall|j: int| 0 <= j < i + 1 implies crate::text::lowered(
                    (#[trigger] headers[j]).name,
                ) != name by {
                    if j > 0 {
                        assert(rest[j - 1] == headers[j]);
                    }
                }
                assert(is_first_named(headers, i + 1, name));
            } else {
                assert forall|j: int| 0 <= j < headers.len() implies crate::text::lowered(
                    (#[trigger] headers[j]).name,
                ) != name by {
                    if j > 0 {
                        assert(rest[j - 1] == headers[j]);
                    }
                }
            }
        }
    }
}

proof fn lemma_one_is_first(headers: Seq<HeaderView>, i: int, j: int, name: Seq<char>)
    requires
        is_first_named(headers, i, name),
        is_first_named(headers, j, name),
    ensures
        i == j,
{
}

/// The first `X-API-KEY` header, where it is a text that is not empty, is the token,
/// as it stands and whatever other headers there are. The names of headers do not
/// depend on case.
pub proof fn the_key_header_is_the_token(headers: Seq<HeaderView>, i: int, s: Seq<char>)
    requires
        is_first_named(headers, i, "x-api-key"@),
        spells(headers[i].value, s),
        s.len() > 0,
    ensures
        presented_token(headers) == Some(s),
{
    lemma_header_named(headers, "x-api-key"@);
    assert(crate::text::lowered(headers[i].name) == "x-api-key"@);
    let k = choose|k: int| #[trigger]
        is_first_named(headers, k, "x-api-key"@) && header_named(headers, "x-api-key"@)
            == header_text(headers[k].value);
    lemma_one_is_first(headers, i, k, "x-api-key"@);
    lemma_header_text(headers[i].value, s);
}

/// Without an `X-API-KEY` header, what stands behind `Bearer ` in the first
/// `Authorization` header is the token, where that is not empty.
pub proof fn a_bearer_is_the_token(headers: Seq<HeaderView>, i: int, s: Seq<char>)
    requires
        forall|j: int|
            0 <= j < headers.len() ==> crate::text::lowered((#[trigger] headers[j]).name)
                != "x-api-key"@,
        is_first_named(headers, i, "authorization"@),
        spells(headers[i].value, "Bearer "@ + s),
        s.len() > 0,
    ensures
        presented_token(headers) == Some(s),
{
    reveal_strlit("Bearer ");
    lemma_header_named(headers, "x-api-key"@);
    lemma_header_named(headers, "authorization"@);
    assert(crate::text::lowered(headers[i].name) == "authorization"@);
    let k = choose|k: int| #[trigger]
        is_first_named(headers, k, "authorization"@) && header_named(headers, "authorization"@)
            == header_text(headers[k].value);
    lemma_one_is_first(headers, i, k, "authorization"@);
    let whole = "Bearer "@ + s;
    lemma_header_text(headers[i].value, whole);
    assert(whole.subrange(0, 7) =~= "Bearer "@);
    assert(whole.skip(7) =~= s);
}

/// Nothing else is a token: one that is presented is not empty, and is the whole of
/// a header `X-API-KEY` or what stands behind `Bearer ` in a header `Authorization`.
pub proof fn nothing_else_is_a_token(headers: Seq<HeaderView>)
    requires
        presented_token(headers) is Some,
    ensures
        ({
            let s = presented_token(headers)->0;
            &&& s.len() > 0
            &&& (exists|i: int| #[trigger]
                is_first_named(headers, i, "x-api-key"@) && spells(headers[i].value, s)) || (
            exists|i: int| #[trigger]
                is_first_named(headers, i, "authorization"@) && spells(
                    headers[i].value,
                    "Bearer "@ + s,
                ))
        }),
{
    reveal_strlit("Bearer ");
    let s = presented_token(headers)->0;
    lemma_header_named(headers, "x-api-key"@);
    lemma_header_named(headers, "authorization"@);
    if header_named(headers, "x-api-key"@) == Some(s) && s.len() > 0 {
        let i = choose|i: int| #[trigger]
            is_first_named(headers, i, "x-api-key"@) && header_named(headers, "x-api-key"@)
                == header_text(headers[i].value);
        lemma_header_text(headers[i].value, s);
        assert(is_first_named(headers, i, "x-api-key"@));
    } else {
        let v = header_named(headers, "authorization"@)->0;
        let i = choose|i: int| #[trigger]
            is_first_named(headers, i, "authorization"@) && header_named(
                headers,
                "authorization"@,
            ) == header_text(headers[i].value);
        lemma_header_text(headers[i].value, v);
        assert(v =~= v.subrange(0, 7) + v.skip(7));
        assert("Bearer "@ + s =~= v);
        assert(is_first_named(headers, i, "authorization"@));
    }
}

// ---------------------------------------------------------------------------
// What holds of self-chosen keys
// ---------------------------------------------------------------------------

proof fn lemma_power_is_pow(base: nat, exponent: nat)
    ensures
        power(base, exponent) == vstd::arithmetic::power::pow(base as int, exponent),
    decreases exponent,
{
    reveal(vstd::arithmetic::power::pow);
    if exponent > 0 {
        lemma_power_is_pow(base, (exponent - 1) as nat);
    }
}

/// Whether a key holds a character of a range.
pub open spec fn draws_on(s: Seq<char>, from: char, to: char) -> bool {
    exists|i: int| 0 <= i < s.len() && from <= #[trigger] s[i] <= to
}

/// Whether a key holds anything but letters and digits of ASCII.
pub open spec fn draws_on_others(s: Seq<char>) -> bool {
    exists|i: int|
        0 <= i < s.len() && !('a' <= #[trigger] s[i] <= 'z') && !('A' <= s[i] <= 'Z') && !('0'
            <= s[i] <= '9')
}

/// The pool that a key is taken to be drawn from has 26 small letters, 26 capitals,
/// ten digits and 33 other characters, each of these classes where the key holds any
/// of it.
pub proof fn each_class_adds_its_size_to_the_pool(s: Seq<char>)
    ensures
        pool_size(s) == (if draws_on(s, 'a', 'z') {
            26int
        } else {
            0
        }) + (if draws_on(s, 'A', 'Z') {
            26int
        } else {
            0
        }) + (if draws_on(s, '0', '9') {
            10int
        } else {
            0
        }) + (if draws_on_others(s) {
            33int
        } else {
            0
        }),
{
    assert(draws_on(s, 'a', 'z') == some_lower(s)) by {
        if draws_on(s, 'a', 'z') {
            let i = choose|i: int| 0 <= i < s.len() && 'a' <= #[trigger] s[i] <= 'z';
            assert(crate::text::is_lower(s[i]));
        }
    }
    assert(draws_on(s, 'A', 'Z') == some_upper(s)) by {
        if draws_on(s, 'A', 'Z') {
            let i = choose|i: int| 0 <= i < s.len() && 'A' <= #[trigger] s[i] <= 'Z';
            assert(crate::text::is_upper(s[i]));
        }
    }
    assert(draws_on(s, '0', '9') == some_digit(s)) by {
        if draws_on(s, '0', '9') {
            let i = choose|i: int| 0 <= i < s.len() && '0' <= #[trigger] s[i] <= '9';
            assert(crate::text::is_digit(s[i]));
        }
    }
    assert(draws_on_others(s) == some_other(s)) by {
        if draws_on_others(s) {
            let i = choose|i: int|
                0 <= i < s.len() && !('a' <= #[trigger] s[i] <= 'z') && !('A' <= s[i] <= 'Z')
                    && !('0' <= s[i] <= '9');
            assert(!crate::text::is_alphanumeric(s[i]));
        }
    }
}

/// A self-chosen key is good enough exactly where it has at least 16 characters, at
/// least eight of them distinct, and there are at least as many keys of its length
/// from its pool as there are of 80 bits.
pub proof fn a_key_is_strong_iff_it_keeps_the_three_rules(token: Seq<char>)
    ensures
        is_strong(token) <==> token.len() >= 16 && token.to_set().len() >= 8
            && vstd::arithmetic::power::pow(pool_size(token) as int, token.len())
            >= vstd::arithmetic::power::pow(2, 80),
{
    lemma_power_is_pow(pool_size(token) as nat, token.len());
    lemma_power_is_pow(2, 80);
}

/// Making a strong key longer leaves it strong, whatever is put behind it.
pub proof fn a_longer_key_is_no_weaker(token: Seq<char>, more: Seq<char>)
    requires
        is_strong(token),
    ensures
        is_strong(token + more),
{
    let longer = token + more;
    let p = pool_size(token) as nat;
    let q = pool_size(longer) as nat;
    assert forall|i: int| 0 <= i < token.len() implies longer[i] == #[trigger] token[i] by {}
    assert(some_lower(token) ==> some_lower(longer)) by {
        if some_lower(token) {
            let i = choose|i: int| 0 <= i < token.len() && crate::text::is_lower(#[trigger] token[i]);
            assert(crate::text::is_lower(longer[i]));
        }
    }
    assert(some_upper(token) ==> some_upper(longer)) by {
        if some_upper(token) {
            let i = choose|i: int| 0 <= i < token.len() && crate::text::is_upper(#[trigger] token[i]);
            assert(crate::text::is_upper(longer[i]));
        }
    }
    assert(some_digit(token) ==> some_digit(longer)) by {
        if some_digit(token) {
            let i = choose|i: int| 0 <= i < token.len() && crate::text::is_digit(#[trigger] token[i]);
            assert(crate::text::is_digit(longer[i]));
        }
    }
    assert(some_other(token) ==> some_other(longer)) by {
        if some_other(token) {
            let i = choose|i: int|
                0 <= i < token.len() && !crate::text::is_alphanumeric(#[trigger] token[i]);
            assert(!crate::text::is_alphanumeric(longer[i]));
        }
    }
    assert(p <= q);
    lemma_pools(token);
    lemma_power_grows_with_base(p, q, token.len());
    lemma_power_grows(q, token.len(), longer.len());
    assert(token.to_set().subset_of(longer.to_set())) by {
        assert forall|c: char| token.to_set().contains(c) implies longer.to_set().contains(c) by {
            let i = choose|i: int| 0 <= i < token.len() && token[i] == c;
            assert(longer[i] == c);
        }
    }
    vstd::set_lib::lemma_len_subset(token.to_set(), longer.to_set());
}

/// What is said of a key that is refused tells what was found: its length where that
/// is the matter, else how many distinct characters it has, else its bits rounded.
pub proof fn a_refused_key_is_told_why(token: Seq<char>, m: Seq<char>)
    requires
        refused_key(token, m),
    ensures
        token.len() < 16 ==> crate::text::occurs_in(crate::text::decimal(token.len()), m),
        token.len() >= 16 && token.to_set().len() < 8 ==> crate::text::occurs_in(
            crate::text::decimal(token.to_set().len()),
            m,
        ),
        token.len() >= 16 && token.to_set().len() >= 8 ==> exists|n: nat| #[trigger]
            crate::text::occurs_in(crate::text::decimal(n), m) && rounds_to(
                token.len(),
                pool_size(token) as nat,
                n,
            ),
{
    if token.len() < 16 {
        lemma_occurs_between(
            "too short: "@,
            crate::text::decimal(token.len()),
            " characters, at least 16 are required"@,
        );
    } else if token.to_set().len() < 8 {
        lemma_occurs_between(
            "only "@,
            crate::text::decimal(token.to_set().len()),
            " distinct characters — a repetitive key is weak however long it is"@,
        );
    } else {
        let n = choose|n: nat|
            #[trigger] rounds_to(token.len(), pool_size(token) as nat, n) && m == "roughly "@
                + crate::text::decimal(n)
                + " bits of entropy, 80 are required — make it longer or mix in more character classes"@;
        lemma_occurs_between(
            "roughly "@,
            crate::text::decimal(n),
            " bits of entropy, 80 are required — make it longer or mix in more character classes"@,
        );
    }
}

proof fn lemma_occurs_between(a: Seq<char>, b: Seq<char>, c: Seq<char>)
    ensures
        crate::text::occurs_in(b, a + b + c),
{
    assert((a + b + c).subrange(a.len() as int, a.len() as int + b.len()) =~= b);
    assert(crate::text::stands_at(a + b + c, a.len() as int, b));
}

/// A key matches a hash exactly where the hash can be read, Argon2 says so, and the
/// hash does not ask for more than 536870911 lanes; a hash that cannot be read is an
/// error and no mismatch.
pub proof fn a_pair_matches_where_argon2_says_so(token: Seq<char>, hash: Seq<char>)
    ensures
        pair_verdict(token, hash) is Err <==> crate::crypto::phc_error(hash) is Some,
        crate::crypto::phc_error(hash) is None && !crate::crypto::asks_too_much(hash)
            ==> pair_verdict(token, hash) == Ok::<bool, Seq<char>>(
            crate::crypto::argon2_verifies(token, hash),
        ),
        crate::crypto::asks_too_much(hash) ==> exists|i: int, j: int|
            #![trigger crate::text::pieces(crate::text::pieces(hash, '$')[i], ',')[j]]
            {
                let param = crate::text::pieces(crate::text::pieces(hash, '$')[i], ',')[j];
                &&& "p="@.is_prefix_of(param)
                &&& crate::text::digits_value(param.skip(2)) > 536_870_911
            },
{
    if crate::crypto::asks_too_much(hash) {
        let fields = crate::text::pieces(hash, '$');
        let i = choose|i: int|
            0 <= i < fields.len() && crate::crypto::field_overflows_lanes(#[trigger] fields[i]);
        let params = crate::text::pieces(fields[i], ',');
        let j = choose|j: int|
            0 <= j < params.len() && crate::crypto::overflows_lanes(#[trigger] params[j]);
        assert(crate::text::digits_value(params[j].skip(2)) > 536_870_911);
    }
}

/// Where every hash can be read, none has a fault.
pub proof fn lemma_readable_hashes_have_no_fault(tokens: Seq<TokenView>)
    requires
        forall|i: int|
            0 <= i < tokens.len() ==> crate::crypto::phc_error((#[trigger] tokens[i]).hash) is None,
    ensures
        hash_fault(tokens) is None,
    decreases tokens.len(),
{
    if tokens.len() > 0 {
        let rest = tokens.drop_first();
        assert forall|i: int| 0 <= i < rest.len() implies crate::crypto::phc_error(
            (#[trigger] rest[i]).hash,
        ) is None by {
            assert(rest[i] == tokens[i + 1]);
        }
        assert(crate::crypto::phc_error(tokens[0].hash) is None);
        lemma_readable_hashes_have_no_fault(rest);
    }
}

} // verus!
