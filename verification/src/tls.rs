//! How the proxy knows that it is talking to the controller.

use vstd::prelude::*;
use vstd::string::*;
use vstd::utf8::*;

use crate::config::{ConfigError, FaultView, TlsConfig};
use crate::crypto::{digest, hex_encode};
use crate::text::{chars_of, count_bytes, hex_digit, join, same, show_usize, text_of, to_lower, trim, trim_prefix};

verus! {

/// The SHA-256 fingerprint of a certificate, in small hexadecimal digits.
pub open spec fn fingerprint_of(cert: Seq<u8>) -> Seq<char> {
    crate::crypto::hex_text(crate::crypto::sha256(cert))
}

/// SHA-256 of a DER-encoded certificate, lowercase hex.
pub fn fingerprint(cert: &[u8]) -> (r: String)
    ensures
        r@ == fingerprint_of(cert@),
        is_fingerprint(r@),
        cleaned(r@) == r@,
{
    let sum = digest(cert);
    let r = hex_encode(&sum);
    proof {
        lemma_hex_text_is_bare(sum@);
        a_bare_fingerprint_is_kept(r@);
    }
    r
}

/// The characters that may stand between the digits of a fingerprint.
pub open spec fn is_separator(c: char) -> bool {
    c == ':' || c == ' ' || c == '-'
}

/// `s` without its separators.
pub open spec fn unseparated(s: Seq<char>) -> Seq<char> {
    s.filter(|c: char| !is_separator(c))
}

/// What is left of a fingerprint as an operator wrote it: no white space around
/// it, no name of the digest before it, no separators, small letters.
pub open spec fn cleaned(raw: Seq<char>) -> Seq<char> {
    let named = crate::text::trimmed(raw);
    let bare = crate::text::prefix_trimmed(
        crate::text::prefix_trimmed(named, "sha256:"@),
        "SHA256:"@,
    );
    crate::text::lowered(unseparated(bare))
}

/// Whether a text consists of hexadecimal digits.
pub open spec fn all_hex(s: Seq<char>) -> bool {
    forall|i: int| 0 <= i < s.len() ==> crate::text::is_hex_digit(#[trigger] s[i])
}

/// Whether a text has the shape of a SHA-256 fingerprint.
pub open spec fn is_fingerprint(s: Seq<char>) -> bool {
    s.len() == 64 && all_hex(s)
}

/// A text that is not a certificate fingerprint.
#[derive(Clone, Copy, Debug)]
pub struct FingerprintError {
    /// How many bytes were left of the text once it was cleaned.
    pub got: usize,
}

impl FingerprintError {
    pub open spec fn spec_message(self) -> Seq<char> {
        "not a SHA-256 certificate fingerprint (expected 64 hex characters, got "@
            + crate::text::decimal(self.got as nat) + ")"@
    }

    pub fn message(&self) -> (r: String)
        ensures
            r@ == self.spec_message(),
    {
        let mut m =
            "not a SHA-256 certificate fingerprint (expected 64 hex characters, got ".to_owned();
        m.append(show_usize(self.got).as_str());
        m.append(")");
        m
    }
}

fn without_separators(s: &str) -> (r: String)
    ensures
        r@ == unseparated(s@),
{
    let v = chars_of(s);
    let mut kept: Vec<char> = Vec::new();
    let mut i: usize = 0;
    proof {
        reveal(Seq::filter);
    }
    while i < v.len()
        invariant
            i <= v@.len(),
            kept@ == unseparated(v@.take(i as int)),
        decreases v.len() - i,
    {
        let c = v[i];
        if c != ':' && c != ' ' && c != '-' {
            kept.push(c);
        }
        i += 1;
        proof {
            reveal(Seq::filter);
            assert(v@.take(i as int).drop_last() =~= v@.take(i - 1));
        }
    }
    assert(v@.take(i as int) =~= v@);
    text_of(&kept)
}

fn hex_only(s: &str) -> (r: bool)
    ensures
        r == all_hex(s@),
{
    let v = chars_of(s);
    let mut i: usize = 0;
    while i < v.len()
        invariant
            i <= v@.len(),
            v@ == s@,
            all_hex(v@.take(i as int)),
        decreases v.len() - i,
    {
        if !hex_digit(v[i]) {
            assert(!crate::text::is_hex_digit(s@[i as int]));
            return false;
        }
        i += 1;
        assert(v@.take(i as int) =~= v@.take(i - 1).push(v@[i - 1]));
    }
    assert(v@.take(i as int) =~= v@);
    true
}

proof fn lemma_hex_bytes(s: Seq<char>)
    requires
        all_hex(s),
    ensures
        encode_utf8(s).len() == s.len(),
{
    assert forall|i: int| 0 <= i < s.len() implies '\0' <= #[trigger] s[i] <= '\u{7f}' by {
        assert(crate::text::is_hex_digit(s[i]));
    }
    assert(is_ascii_chars(s));
    is_ascii_chars_encode_utf8(s);
}

/// Accepts `AB:CD:...`, `sha256:abcd...` and plain hex, case-insensitively.
pub fn normalize_fingerprint(raw: &str) -> (r: Result<String, FingerprintError>)
    ensures
        r is Ok <==> is_fingerprint(cleaned(raw@)),
        r matches Ok(f) ==> f@ == cleaned(raw@),
        r matches Err(e) ==> e.got == crate::text::byte_length(cleaned(raw@)),
{
    let named = trim(raw);
    let once = trim_prefix(named.as_str(), "sha256:");
    let bare = trim_prefix(once.as_str(), "SHA256:");
    let digits = without_separators(bare.as_str());
    let clean = to_lower(digits.as_str());
    let hex = hex_only(clean.as_str());
    proof {
        if hex {
            lemma_hex_bytes(clean@);
        }
    }
    let got: usize = count_bytes(clean.as_str());
    if hex && clean.as_str().unicode_len() == 64 {
        Ok(clean)
    } else {
        Err(FingerprintError { got })
    }
}

/// Whether every one of some fingerprints, as an operator wrote them, is usable.
pub open spec fn all_usable(raws: Seq<Seq<char>>) -> bool {
    forall|i: int| 0 <= i < raws.len() ==> is_fingerprint(#[trigger] cleaned(raws[i]))
}

/// The fingerprints that are pinned by what an operator wrote.
pub open spec fn pins(raws: Seq<Seq<char>>) -> Seq<Seq<char>> {
    raws.map_values(|raw: Seq<char>| cleaned(raw))
}

/// What is wrong with the first of some fingerprints that is not usable; `None`
/// where they all are.
pub open spec fn first_unusable(raws: Seq<Seq<char>>) -> Option<FingerprintError>
    decreases raws.len(),
{
    if raws.len() == 0 {
        None
    } else if !is_fingerprint(cleaned(raws[0])) {
        Some(FingerprintError { got: crate::text::byte_length(cleaned(raws[0])) as usize })
    } else {
        first_unusable(raws.drop_first())
    }
}

/// Fingerprints have no fault exactly where every one of them is usable.
pub proof fn usable_fingerprints_have_no_fault(raws: Seq<Seq<char>>)
    ensures
        first_unusable(raws) is None <==> all_usable(raws),
    decreases raws.len(),
{
    if raws.len() > 0 && is_fingerprint(cleaned(raws[0])) {
        let rest = raws.drop_first();
        usable_fingerprints_have_no_fault(rest);
        if all_usable(rest) {
            assert forall|i: int| 0 <= i < raws.len() implies is_fingerprint(
                #[trigger] cleaned(raws[i]),
            ) by {
                if i > 0 {
                    assert(raws[i] == rest[i - 1]);
                }
            }
        }
        if all_usable(raws) {
            assert forall|i: int| 0 <= i < rest.len() implies is_fingerprint(
                #[trigger] cleaned(rest[i]),
            ) by {
                assert(rest[i] == raws[i + 1]);
            }
        }
    }
}

/// Normalizes every one of some fingerprints, or says what is wrong with the
/// first that cannot be used.
pub fn normalize_all(raws: &Vec<String>) -> (r: Result<Vec<String>, FingerprintError>)
    ensures
        match r {
            Ok(list) => {
                &&& first_unusable(crate::text::texts(raws@)) is None
                &&& crate::text::texts(list@) == pins(crate::text::texts(raws@))
            },
            Err(e) => first_unusable(crate::text::texts(raws@)) == Some(e),
        },
{
    let ghost all = crate::text::texts(raws@);
    let mut list: Vec<String> = Vec::new();
    let mut i: usize = 0;
    assert(all.skip(0) =~= all);
    while i < raws.len()
        invariant
            i <= raws@.len(),
            all == crate::text::texts(raws@),
            first_unusable(all) == first_unusable(all.skip(i as int)),
            crate::text::texts(list@) == pins(all.take(i as int)),
        decreases raws.len() - i,
    {
        let ghost rest = all.skip(i as int);
        assert(rest[0] == raws@[i as int]@);
        match normalize_fingerprint(raws[i].as_str()) {
            Ok(f) => {
                let ghost before = list@;
                list.push(f);
                i += 1;
                proof {
                    assert(rest.drop_first() =~= all.skip(i as int));
                    assert(all.take(i as int) =~= all.take(i - 1).push(all[i - 1]));
                    assert(crate::text::texts(list@) =~= crate::text::texts(before).push(f@));
                    assert(pins(all.take(i as int)) =~= pins(all.take(i - 1)).push(f@));
                }
            },
            Err(e) => {
                return Err(e);
            },
        }
    }
    assert(all.take(i as int) =~= all);
    Ok(list)
}

/// Whether a certificate is among the pinned ones.
pub open spec fn accepts(pinned: Seq<Seq<char>>, cert: Seq<u8>) -> bool {
    pinned.contains(fingerprint_of(cert))
}

/// Verifies the leaf certificate by exact SHA-256 match and nothing else.
///
/// Chain, expiry and hostname are deliberately not checked: a UniFi console
/// ships a self-signed certificate that fails all three, yet pinning its exact
/// bytes still yields a channel an on-path attacker cannot take over. Swapping
/// the console legitimately means re-pinning, which is the intended friction.
pub struct PinnedVerifier {
    /// Every fingerprint that counts as "this is the controller". Usually one.
    expected: Vec<String>,
}

impl View for PinnedVerifier {
    type V = Seq<Seq<char>>;

    closed spec fn view(&self) -> Seq<Seq<char>> {
        crate::text::texts(self.expected@)
    }
}

impl PinnedVerifier {
    /// Accepts a certificate that is pinned, and says of any other what was
    /// pinned and what was presented.
    pub fn verify_server_cert(&self, end_entity: &[u8]) -> (r: Result<(), String>)
        ensures
            r is Ok <==> accepts(self@, end_entity@),
            r matches Err(m) ==> m@ == "controller certificate fingerprint mismatch: pinned "@
                + crate::text::joined(self@, " or "@) + ", presented "@ + fingerprint_of(
                end_entity@,
            ),
    {
        let actual = fingerprint(end_entity);
        let mut i: usize = 0;
        while i < self.expected.len()
            invariant
                i <= self.expected@.len(),
                actual@ == fingerprint_of(end_entity@),
                forall|j: int| 0 <= j < i ==> #[trigger] self@[j] != actual@,
            decreases self.expected.len() - i,
        {
            if same(self.expected[i].as_str(), actual.as_str()) {
                assert(self@[i as int] == actual@);
                return Ok(());
            }
            i += 1;
        }
        let mut m = "controller certificate fingerprint mismatch: pinned ".to_owned();
        m.append(join(&self.expected, " or ").as_str());
        m.append(", presented ");
        m.append(actual.as_str());
        Err(m)
    }
}

/// Accepts every certificate and records the last one that it saw.
pub struct CapturingVerifier {
    seen: Option<String>,
}

impl View for CapturingVerifier {
    type V = Option<Seq<char>>;

    closed spec fn view(&self) -> Option<Seq<char>> {
        match self.seen {
            Some(s) => Some(s@),
            None => None,
        }
    }
}

impl CapturingVerifier {
    pub fn new() -> (r: Self)
        ensures
            r@ == None::<Seq<char>>,
    {
        CapturingVerifier { seen: None }
    }

    pub fn verify_server_cert(&mut self, end_entity: &[u8])
        ensures
            final(self)@ == Some(fingerprint_of(end_entity@)),
    {
        self.seen = Some(fingerprint(end_entity));
    }

    /// The fingerprint that a probe came for.
    pub fn captured(self) -> (r: Result<String, String>)
        ensures
            match self@ {
                Some(f) => r is Ok && r->Ok_0@ == f,
                None => r is Err && r->Err_0@
                    == "connection succeeded but no certificate was presented"@,
            },
    {
        match self.seen {
            Some(f) => Ok(f),
            None => Err("connection succeeded but no certificate was presented".to_owned()),
        }
    }
}

/// How the controller's certificate is checked.
pub enum TlsMode {
    /// The leaf certificate must be one of the pinned ones.
    Pinned(PinnedVerifier),
    /// Any certificate will do.
    AcceptAny,
    /// Ordinary WebPKI verification.
    WebPki,
}

/// A way of checking the certificate, as the contracts speak of it.
pub ghost enum TlsModeView {
    Pinned(Seq<Seq<char>>),
    AcceptAny,
    WebPki,
}

impl View for TlsMode {
    type V = TlsModeView;

    open spec fn view(&self) -> TlsModeView {
        match self {
            TlsMode::Pinned(verifier) => TlsModeView::Pinned(verifier@),
            TlsMode::AcceptAny => TlsModeView::AcceptAny,
            TlsMode::WebPki => TlsModeView::WebPki,
        }
    }
}

/// What is wrong with the fingerprints that are to be pinned. An empty list is no
/// pin at all.
pub open spec fn pins_fault(raws: Seq<Seq<char>>) -> Option<FaultView> {
    if raws.len() == 0 {
        Some(FaultView::NoPins)
    } else {
        match first_unusable(raws) {
            Some(cause) => Some(FaultView::UnusableFingerprint(cause)),
            None => None,
        }
    }
}

/// Normalizes the fingerprints that are to be pinned, or says what is wrong with
/// them.
pub fn normalize_pins(raws: &Vec<String>) -> (r: Result<Vec<String>, ConfigError>)
    ensures
        match r {
            Ok(list) => {
                &&& pins_fault(crate::text::texts(raws@)) is None
                &&& crate::text::texts(list@) == pins(crate::text::texts(raws@))
            },
            Err(e) => pins_fault(crate::text::texts(raws@)) == Some(e@),
        },
{
    if raws.len() == 0 {
        return Err(ConfigError::NoPins);
    }
    match normalize_all(raws) {
        Ok(list) => Ok(list),
        Err(cause) => Err(ConfigError::UnusableFingerprint(cause)),
    }
}

/// How a configuration asks for the certificate to be checked, or what is wrong
/// with its fingerprints.
pub open spec fn mode_of(cfg: TlsConfig) -> Result<TlsModeView, FaultView> {
    match cfg.fingerprint_sha256 {
        Some(raws) => match pins_fault(crate::text::texts(raws@)) {
            Some(fault) => Err(fault),
            None => Ok(TlsModeView::Pinned(pins(crate::text::texts(raws@)))),
        },
        None => if cfg.insecure_skip_verify {
            Ok(TlsModeView::AcceptAny)
        } else {
            Ok(TlsModeView::WebPki)
        },
    }
}

/// Picks how the controller's certificate is checked.
///
/// Three modes, in order of preference:
///   1. `fingerprint_sha256` set — pin the leaf certificate.
///   2. neither set — ordinary WebPKI verification, which works only if the
///      console has a real certificate. This is the secure default and fails
///      loudly on a stock self-signed console.
///   3. `insecure_skip_verify` — accept anything, for first-run discovery only.
pub fn client_config(cfg: &TlsConfig) -> (r: Result<TlsMode, ConfigError>)
    ensures
        match mode_of(*cfg) {
            Ok(mode) => r is Ok && r->Ok_0@ == mode,
            Err(fault) => r is Err && r->Err_0@ == fault,
        },
{
    if let Some(raws) = &cfg.fingerprint_sha256 {
        return match normalize_pins(raws) {
            Ok(expected) => Ok(TlsMode::Pinned(PinnedVerifier { expected })),
            Err(e) => Err(e),
        };
    }
    if cfg.insecure_skip_verify {
        return Ok(TlsMode::AcceptAny);
    }
    Ok(TlsMode::WebPki)
}

// ---------------------------------------------------------------------------
// What holds of pins
// ---------------------------------------------------------------------------

/// Whether a text is made of hexadecimal digits and separators.
pub open spec fn is_spelling(s: Seq<char>) -> bool {
    forall|i: int|
        0 <= i < s.len() ==> crate::text::is_hex_digit(#[trigger] s[i]) || is_separator(s[i])
}

proof fn lemma_start_trim(s: Seq<char>)
    requires
        is_spelling(s),
    ensures
        is_spelling(crate::text::start_trimmed(s)),
        unseparated(crate::text::start_trimmed(s)) == unseparated(s),
    decreases s.len(),
{
    if s.len() > 0 && crate::text::is_white(s[0]) {
        assert(crate::text::is_hex_digit(s[0]) || is_separator(s[0]));
        let rest = s.drop_first();
        assert forall|i: int| 0 <= i < rest.len() implies crate::text::is_hex_digit(
            #[trigger] rest[i],
        ) || is_separator(rest[i]) by {
            assert(rest[i] == s[i + 1]);
        }
        lemma_start_trim(rest);
        rest.lemma_filter_prepend(s[0], |c: char| !is_separator(c));
        assert(seq![s[0]] + rest =~= s);
        assert(unseparated(s) =~= unseparated(rest));
    }
}

proof fn lemma_end_trim(s: Seq<char>)
    requires
        is_spelling(s),
    ensures
        is_spelling(crate::text::end_trimmed(s)),
        unseparated(crate::text::end_trimmed(s)) == unseparated(s),
    decreases s.len(),
{
    if s.len() > 0 && crate::text::is_white(s.last()) {
        assert(crate::text::is_hex_digit(s.last()) || is_separator(s.last()));
        let rest = s.drop_last();
        assert forall|i: int| 0 <= i < rest.len() implies crate::text::is_hex_digit(
            #[trigger] rest[i],
        ) || is_separator(rest[i]) by {
            assert(rest[i] == s[i]);
        }
        lemma_end_trim(rest);
        reveal(Seq::filter);
    }
}

proof fn lemma_end_trim_after(p: Seq<char>, s: Seq<char>)
    requires
        p.len() > 0,
        !crate::text::is_white(p.last()),
    ensures
        crate::text::end_trimmed(p + s) == p + crate::text::end_trimmed(s),
    decreases s.len(),
{
    if s.len() == 0 {
        assert(p + s =~= p);
        assert(s =~= Seq::<char>::empty());
        assert(p + crate::text::end_trimmed(s) =~= p);
    } else {
        assert((p + s).last() == s.last());
        if crate::text::is_white(s.last()) {
            assert((p + s).drop_last() =~= p + s.drop_last());
            lemma_end_trim_after(p, s.drop_last());
        }
    }
}

proof fn lemma_no_name(s: Seq<char>)
    requires
        is_spelling(s),
    ensures
        crate::text::prefix_trimmed(s, "sha256:"@) == s,
        crate::text::prefix_trimmed(s, "SHA256:"@) == s,
{
    reveal_strlit("sha256:");
    reveal_strlit("SHA256:");
    if s.len() > 0 {
        assert(crate::text::is_hex_digit(s[0]) || is_separator(s[0]));
        assert(s[0] != "sha256:"@[0]);
        assert(s[0] != "SHA256:"@[0]);
    }
}

/// The separators between the digits of a fingerprint and the case of its
/// letters do not matter: whatever is made of hexadecimal digits and separators
/// is cleaned to the digits alone, in small letters.
pub proof fn spellings_of_a_fingerprint_agree(raw: Seq<char>)
    requires
        is_spelling(raw),
    ensures
        cleaned(raw) == crate::text::lowered(unseparated(raw)),
{
    lemma_start_trim(raw);
    lemma_end_trim(crate::text::start_trimmed(raw));
    lemma_no_name(crate::text::trimmed(raw));
}

/// The name of the digest before a fingerprint does not matter.
pub proof fn the_name_of_the_digest_is_tolerated(raw: Seq<char>)
    requires
        is_spelling(raw),
    ensures
        cleaned("sha256:"@ + raw) == cleaned(raw),
        cleaned("SHA256:"@ + raw) == cleaned(raw),
{
    reveal_strlit("sha256:");
    reveal_strlit("SHA256:");
    spellings_of_a_fingerprint_agree(raw);
    let tail = crate::text::end_trimmed(raw);
    lemma_end_trim(raw);
    lemma_no_name(tail);
    let p = "sha256:"@;
    lemma_end_trim_after(p, raw);
    assert(crate::text::trimmed(p + raw) == p + tail);
    assert(p.is_prefix_of(p + tail)) by {
        assert((p + tail).subrange(0, p.len() as int) =~= p);
    }
    assert((p + tail).skip(p.len() as int) =~= tail);
    assert(crate::text::prefix_trimmed(p + tail, p) == tail);
    let q = "SHA256:"@;
    lemma_end_trim_after(q, raw);
    assert(crate::text::trimmed(q + raw) == q + tail);
    assert(q.is_prefix_of(q + tail)) by {
        assert((q + tail).subrange(0, q.len() as int) =~= q);
    }
    assert((q + tail)[0] != p[0]);
    assert(crate::text::prefix_trimmed(q + tail, p) == q + tail);
    assert((q + tail).skip(q.len() as int) =~= tail);
    assert(crate::text::prefix_trimmed(q + tail, q) == tail);
}

/// A fingerprint in small digits alone is kept as it is, so cleaning what was
/// cleaned changes nothing.
pub proof fn a_bare_fingerprint_is_kept(s: Seq<char>)
    requires
        is_fingerprint(s),
        crate::text::lowered(s) == s,
    ensures
        cleaned(s) == s,
{
    spellings_of_a_fingerprint_agree(s);
    lemma_nothing_to_drop(s);
}

proof fn lemma_nothing_to_drop(s: Seq<char>)
    requires
        all_hex(s),
    ensures
        unseparated(s) == s,
    decreases s.len(),
{
    reveal(Seq::filter);
    if s.len() > 0 {
        assert(crate::text::is_hex_digit(s.last()));
        assert(all_hex(s.drop_last()));
        lemma_nothing_to_drop(s.drop_last());
        assert(s.drop_last().push(s.last()) =~= s);
    }
}

/// Cleaning what was cleaned changes nothing.
pub proof fn cleaning_is_idempotent(raw: Seq<char>)
    requires
        is_fingerprint(cleaned(raw)),
    ensures
        cleaned(cleaned(raw)) == cleaned(raw),
{
    let once = cleaned(raw);
    assert(crate::text::lowered(once) =~= once);
    a_bare_fingerprint_is_kept(once);
}

proof fn lemma_hex_text_is_bare(data: Seq<u8>)
    requires
        data.len() == 32,
    ensures
        is_fingerprint(crate::crypto::hex_text(data)),
        crate::text::lowered(crate::crypto::hex_text(data)) == crate::crypto::hex_text(data),
{
    let s = crate::crypto::hex_text(data);
    assert forall|i: int| 0 <= i < s.len() implies crate::text::is_hex_digit(#[trigger] s[i])
        && crate::text::lowered_char(s[i]) == s[i] by {
        let n: u8 = if i % 2 == 0 {
            data[i / 2] / 16
        } else {
            data[i / 2] % 16
        };
        assert(n < 16);
        assert(s[i] == crate::crypto::hex_char(n));
    }
    assert(crate::text::lowered(s) =~= s);
}

/// A connection that is pinned is pinned to at least one certificate.
pub proof fn a_pinned_connection_has_a_pin(cfg: TlsConfig)
    requires
        cfg.fingerprint_sha256 is Some,
        mode_of(cfg) is Ok,
    ensures
        mode_of(cfg)->Ok_0 matches TlsModeView::Pinned(pinned) && pinned.len() > 0,
{
}

/// A list of pins accepts what any of them accepts: it widens which certificates
/// are accepted, never whether they are checked. No pin at all accepts nothing.
pub proof fn a_list_of_pins_accepts_what_any_of_them_does(
    a: Seq<Seq<char>>,
    b: Seq<Seq<char>>,
    cert: Seq<u8>,
)
    ensures
        accepts(a + b, cert) <==> accepts(a, cert) || accepts(b, cert),
        !accepts(Seq::empty(), cert),
{
    let f = fingerprint_of(cert);
    if accepts(a, cert) {
        let i = choose|i: int| 0 <= i < a.len() && a[i] == f;
        assert((a + b)[i] == f);
    }
    if accepts(b, cert) {
        let i = choose|i: int| 0 <= i < b.len() && b[i] == f;
        assert((a + b)[a.len() + i] == f);
    }
}

/// A pin accepts the certificates with that very fingerprint, whole, and no other;
/// the fingerprint of a certificate is its SHA-256 digest, 64 hexadecimal digits.
pub proof fn a_pin_is_exact(pin: Seq<char>, cert: Seq<u8>)
    ensures
        accepts(seq![pin], cert) <==> pin == fingerprint_of(cert),
        fingerprint_of(cert).len() == 2 * crate::crypto::sha256(cert).len(),
        forall|i: int|
            0 <= i < crate::crypto::sha256(cert).len() ==> {
                &&& #[trigger] fingerprint_of(cert)[2 * i] == crate::crypto::hex_char(
                    (crate::crypto::sha256(cert)[i] / 16) as u8,
                )
                &&& fingerprint_of(cert)[2 * i + 1] == crate::crypto::hex_char(
                    (crate::crypto::sha256(cert)[i] % 16) as u8,
                )
            },
{
    let one = seq![pin];
    if pin == fingerprint_of(cert) {
        assert(one[0] == pin);
    }
}

/// How a certificate is checked follows the configuration: against every fingerprint
/// that it lists, as cleaned, wherever it lists any; otherwise as usual, unless the
/// checks are switched off.
pub proof fn the_mode_follows_the_configuration(cfg: TlsConfig)
    ensures
        cfg.fingerprint_sha256 is None && !cfg.insecure_skip_verify ==> mode_of(cfg) == Ok::<
            TlsModeView,
            FaultView,
        >(TlsModeView::WebPki),
        cfg.fingerprint_sha256 is None && cfg.insecure_skip_verify ==> mode_of(cfg) == Ok::<
            TlsModeView,
            FaultView,
        >(TlsModeView::AcceptAny),
        cfg.fingerprint_sha256 matches Some(raws) ==> {
            let usable = raws@.len() > 0 && forall|i: int|
                0 <= i < raws@.len() ==> {
                    let f = #[trigger] cleaned(raws@[i]@);
                    f.len() == 64 && forall|j: int|
                        0 <= j < f.len() ==> crate::text::is_hex_digit(#[trigger] f[j])
                };
            &&& mode_of(cfg) is Ok <==> usable
            &&& usable ==> mode_of(cfg)->Ok_0 is Pinned && mode_of(cfg)->Ok_0->Pinned_0
                == Seq::new(raws@.len(), |i: int| cleaned(raws@[i]@))
        },
{
    if let Some(raws) = cfg.fingerprint_sha256 {
        let all = crate::text::texts(raws@);
        usable_fingerprints_have_no_fault(all);
        assert forall|i: int| 0 <= i < raws@.len() implies #[trigger] all[i] == raws@[i]@ by {}
        if all_usable(all) {
            assert forall|i: int| 0 <= i < raws@.len() implies is_fingerprint(
                #[trigger] cleaned(raws@[i]@),
            ) by {
                assert(is_fingerprint(cleaned(all[i])));
            }
        }
        if forall|i: int| 0 <= i < raws@.len() ==> is_fingerprint(#[trigger] cleaned(raws@[i]@)) {
            assert forall|i: int| 0 <= i < all.len() implies is_fingerprint(
                #[trigger] cleaned(all[i]),
            ) by {
                assert(is_fingerprint(cleaned(raws@[i]@)));
            }
        }
        assert(pins(all) =~= Seq::new(raws@.len(), |i: int| cleaned(raws@[i]@)));
        assert(all.len() == raws@.len());
    }
}

} // verus!
