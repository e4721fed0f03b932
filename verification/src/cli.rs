//! What the commands of the program decide and print.

use vstd::prelude::*;
use vstd::string::*;

use crate::auth::{assess_strength, generate_token, load_hash_check, BadHash, Strength};
use crate::config::{Config, Limits, TokenConfig, TokenView};
use crate::text::{has_prefix, join, pad, show, show_usize, trim_end_of};

verus! {

// ---------------------------------------------------------------------------
// serve
// ---------------------------------------------------------------------------

/// Configuration that works but weakens the guarantees.
#[derive(Debug)]
pub enum WeakSetting {
    InsecureSkipVerify,
    Plaintext,
    NoSourceLimit,
    /// The named token may use every site.
    EverySite(String),
}

/// Such a setting as the contracts speak of it.
pub ghost enum WeakSettingView {
    InsecureSkipVerify,
    Plaintext,
    NoSourceLimit,
    EverySite(Seq<char>),
}

impl View for WeakSetting {
    type V = WeakSettingView;

    open spec fn view(&self) -> WeakSettingView {
        match self {
            WeakSetting::InsecureSkipVerify => WeakSettingView::InsecureSkipVerify,
            WeakSetting::Plaintext => WeakSettingView::Plaintext,
            WeakSetting::NoSourceLimit => WeakSettingView::NoSourceLimit,
            WeakSetting::EverySite(token) => WeakSettingView::EverySite(token@),
        }
    }
}

impl WeakSettingView {
    /// What the log is told.
    pub open spec fn message(self) -> Seq<char> {
        match self {
            WeakSettingView::InsecureSkipVerify =>
                "controller.tls.insecure_skip_verify is on — the connection to the controller is unauthenticated and an on-path attacker could capture the API key. Run `unifi-voucher-proxy fetch-fingerprint` and pin the certificate instead."@,
            WeakSettingView::Plaintext =>
                "controller.host is plaintext http:// and allow_plaintext is on — the full-control API key travels unencrypted. This is only safe if a TLS-terminating sidecar on this host is doing the encryption."@,
            WeakSettingView::NoSourceLimit =>
                "limits.rate_limit_per_ip_per_minute is 0 — nothing bounds how much Argon2 work an unauthenticated caller can trigger. Leave this on unless something in front of the proxy already limits by source address."@,
            WeakSettingView::EverySite(_) =>
                "token may use every site on the controller; consider listing site ids explicitly"@,
        }
    }
}

impl WeakSetting {
    pub fn message(&self) -> (r: String)
        ensures
            r@ == self@.message(),
    {
        match self {
            WeakSetting::InsecureSkipVerify =>
                "controller.tls.insecure_skip_verify is on — the connection to the controller is unauthenticated and an on-path attacker could capture the API key. Run `unifi-voucher-proxy fetch-fingerprint` and pin the certificate instead.".to_owned(),
            WeakSetting::Plaintext =>
                "controller.host is plaintext http:// and allow_plaintext is on — the full-control API key travels unencrypted. This is only safe if a TLS-terminating sidecar on this host is doing the encryption.".to_owned(),
            WeakSetting::NoSourceLimit =>
                "limits.rate_limit_per_ip_per_minute is 0 — nothing bounds how much Argon2 work an unauthenticated caller can trigger. Leave this on unless something in front of the proxy already limits by source address.".to_owned(),
            WeakSetting::EverySite(_) =>
                "token may use every site on the controller; consider listing site ids explicitly".to_owned(),
        }
    }
}

/// One warning, or none.
pub open spec fn warned(when: bool, w: WeakSettingView) -> Seq<WeakSettingView> {
    if when {
        seq![w]
    } else {
        seq![]
    }
}

/// The warnings for the tokens that may use every site.
pub open spec fn wide_tokens(tokens: Seq<TokenView>) -> Seq<WeakSettingView>
    decreases tokens.len(),
{
    if tokens.len() == 0 {
        seq![]
    } else {
        let t = tokens.last();
        wide_tokens(tokens.drop_last()) + warned(
            t.sites.contains("*"@),
            WeakSettingView::EverySite(t.name),
        )
    }
}

/// Everything about a configuration that weakens the guarantees. That the
/// certificate is not checked goes unsaid where the operator asked for silence.
pub open spec fn weaknesses(cfg: Config) -> Seq<WeakSettingView> {
    let tls = cfg.controller.tls;
    warned(
        tls.insecure_skip_verify && !tls.silence_insecure_warning,
        WeakSettingView::InsecureSkipVerify,
    ) + warned(
        tls.allow_plaintext && crate::config::plaintext(cfg.controller.host@),
        WeakSettingView::Plaintext,
    ) + warned(cfg.limits.rate_limit_per_ip_per_minute == 0, WeakSettingView::NoSourceLimit)
        + wide_tokens(crate::config::token_views(cfg.tokens@))
}

/// Warnings, each taken by its view.
pub open spec fn weak_views(list: Seq<WeakSetting>) -> Seq<WeakSettingView> {
    list.map_values(|w: WeakSetting| w@)
}

fn warn_when(list: &mut Vec<WeakSetting>, when: bool, w: WeakSetting)
    ensures
        weak_views(final(list)@) == weak_views(old(list)@) + warned(when, w@),
{
    if when {
        list.push(w);
        assert(weak_views(list@) =~= weak_views(old(list)@) + seq![w@]);
    } else {
        assert(weak_views(list@) =~= weak_views(old(list)@) + seq![]);
    }
}

/// Configuration that works but weakens the guarantees is called out on every
/// start, not silently accepted.
pub fn warn_about_weak_settings(cfg: &Config) -> (r: Vec<WeakSetting>)
    ensures
        weak_views(r@) == weaknesses(*cfg),
{
    let mut list: Vec<WeakSetting> = Vec::new();
    let tls = &cfg.controller.tls;
    assert(weak_views(list@) =~= seq![]);
    warn_when(
        &mut list,
        tls.insecure_skip_verify && !tls.silence_insecure_warning,
        WeakSetting::InsecureSkipVerify,
    );
    warn_when(
        &mut list,
        tls.allow_plaintext && cfg.controller.is_plaintext(),
        WeakSetting::Plaintext,
    );
    warn_when(
        &mut list,
        cfg.limits.rate_limit_per_ip_per_minute == 0,
        WeakSetting::NoSourceLimit,
    );
    let ghost head = weak_views(list@);
    let ghost all = crate::config::token_views(cfg.tokens@);
    let mut i: usize = 0;
    assert(head + wide_tokens(all.take(0)) =~= head);
    while i < cfg.tokens.len()
        invariant
            i <= cfg.tokens@.len(),
            all == crate::config::token_views(cfg.tokens@),
            weak_views(list@) == head + wide_tokens(all.take(i as int)),
        decreases cfg.tokens.len() - i,
    {
        let t = &cfg.tokens[i];
        proof {
            assert(all.take(i + 1).drop_last() =~= all.take(i as int));
            assert(all.take(i + 1).last() == t@);
        }
        let ghost before = weak_views(list@);
        let wide = t.has_wildcard();
        warn_when(&mut list, wide, WeakSetting::EverySite(t.name.as_str().to_owned()));
        i += 1;
        assert(weak_views(list@) =~= head + wide_tokens(all.take(i as int)));
    }
    assert(all.take(i as int) =~= all);
    assert(weak_views(list@) =~= weaknesses(*cfg));
    list
}

// ---------------------------------------------------------------------------
// hash-token
// ---------------------------------------------------------------------------

/// The key that an operator supplied: on the command line, or else on standard
/// input.
///
/// Only a trailing newline is stripped; a key may legitimately end in a space,
/// and silently trimming it would break authentication in a way that is
/// miserable to debug.
pub fn supplied_key(custom: Option<String>, stdin: Option<String>) -> (r: Option<String>)
    ensures
        match custom {
            Some(t) => r == Some(t),
            None => match stdin {
                Some(buf) => r is Some && r->0@ == crate::text::end_trimmed_of(buf@, "\n\r"@),
                None => r is None,
            },
        },
{
    match custom {
        Some(t) => Some(t),
        None => match stdin {
            Some(buf) => Some(trim_end_of(buf.as_str(), "\n\r")),
            None => None,
        },
    }
}

/// What the log is told of a key that an operator chose.
#[derive(Debug)]
pub enum KeyNote {
    Accepted(Strength),
    /// The key is weak, and was accepted all the same.
    AcceptedWeak(String),
}

/// What `hash-token` comes to.
#[derive(Debug)]
pub struct HashedToken {
    pub note: Option<KeyNote>,
    /// What is printed.
    pub text: String,
}

/// Why a key is not hashed.
pub open spec fn refusal_to_hash(why: Seq<char>) -> Seq<char> {
    "refusing to hash this key: "@ + why
        + ".\nThis key is the only thing between a client and your controller. Pass --allow-weak to override, or omit --token to have one generated."@
}

/// What the log is told of a weak key that was accepted.
pub open spec fn weak_key_note(why: Seq<char>) -> Seq<char> {
    "custom key is weak ("@ + why + ") — accepted because --allow-weak was given"@
}

/// The config entry for a token, and what to do with the token itself.
pub open spec fn snippet(
    name: Seq<char>,
    hash: Seq<char>,
    token: Seq<char>,
    generated: bool,
) -> Seq<char> {
    let entry = "Add this to your config.toml:\n\n[[tokens]]\nname = \""@ + name
        + "\"\nhash = \""@ + hash
        + "\"\nsites = [\"*\"]              # replace with explicit site ids where you can\nscopes = [\"sites:read\", \"vouchers:read\", \"vouchers:create\", \"vouchers:revoke\"]\n"@;
    if generated {
        entry
            + "\nGive this token to the client — it is shown once and is not recoverable:\n\n  "@
            + token + "\n\n"@
    } else {
        entry
            + "\nOnly the hash is stored. Keep your key wherever you keep your other secrets;\nit cannot be recovered from the config.\n\n"@
    }
}

fn print_snippet(name: &str, hash: &str, token: &str, generated: bool) -> (r: String)
    ensures
        r@ == snippet(name@, hash@, token@, generated),
{
    let mut m = "Add this to your config.toml:\n\n[[tokens]]\nname = \"".to_owned();
    m.append(name);
    m.append("\"\nhash = \"");
    m.append(hash);
    m.append(
        "\"\nsites = [\"*\"]              # replace with explicit site ids where you can\nscopes = [\"sites:read\", \"vouchers:read\", \"vouchers:create\", \"vouchers:revoke\"]\n",
    );
    if generated {
        m.append(
            "\nGive this token to the client — it is shown once and is not recoverable:\n\n  ",
        );
        m.append(token);
        m.append("\n\n");
    } else {
        m.append(
            "\nOnly the hash is stored. Keep your key wherever you keep your other secrets;\nit cannot be recovered from the config.\n\n",
        );
    }
    m
}

/// Whether a text is the snippet for a token under a hash that it verifies
/// against.
pub open spec fn is_snippet_for(
    text: Seq<char>,
    name: Seq<char>,
    token: Seq<char>,
    generated: bool,
) -> bool {
    exists|hash: Seq<char>|
        #[trigger] crate::auth::is_fresh_hash(token, hash) && text == snippet(
            name,
            hash,
            token,
            generated,
        )
}

/// Whether a text is the snippet for some freshly minted token.
pub open spec fn is_snippet_for_a_fresh_token(text: Seq<char>, name: Seq<char>) -> bool {
    exists|token: Seq<char>|
        #[trigger] crate::auth::is_minted(token) && is_snippet_for(text, name, token, true)
}

/// Whether a note is right about a key.
pub open spec fn note_fits(note: KeyNote, key: Seq<char>) -> bool {
    match note {
        KeyNote::Accepted(strength) => {
            &&& crate::auth::is_strong(key)
            &&& strength.length == key.len()
            &&& strength.pool == crate::auth::pool_size(key)
        },
        KeyNote::AcceptedWeak(note) => !crate::auth::is_strong(key) && exists|why: Seq<char>|
            #[trigger] crate::auth::refused_key(key, why) && note@ == weak_key_note(why),
    }
}

/// Whether a message is right about why a key was refused as weak.
pub open spec fn refused_as_weak(m: Seq<char>, key: Seq<char>) -> bool {
    exists|why: Seq<char>|
        #[trigger] crate::auth::refused_key(key, why) && m == refusal_to_hash(why)
}

/// Whether a message is right about why a key could not be hashed.
pub open spec fn not_hashed(m: Seq<char>, key: Seq<char>) -> bool {
    exists|salt: Seq<char>|
        #[trigger] crate::crypto::is_fresh_salt(salt) && crate::auth::refused_under(key, salt, m)
}

/// Mints a token, or hashes one that an operator chose, and prints the config
/// entry for it. A weak key is refused unless that is overridden.
pub fn hash_token(name: &str, supplied: Option<String>, allow_weak: bool) -> (r: Result<
    HashedToken,
    String,
>)
    ensures
        match supplied {
            None => {
                &&& r is Ok
                &&& r->Ok_0.note is None
                &&& is_snippet_for_a_fresh_token(r->Ok_0.text@, name@)
            },
            Some(key) => {
                let taken = crate::auth::is_strong(key@) || allow_weak;
                &&& taken && crate::text::byte_length(key@) <= 0xFFFF_FFFF ==> r is Ok
                &&& match r {
                    Ok(done) => {
                        &&& taken
                        &&& done.note is Some
                        &&& note_fits(done.note->0, key@)
                        &&& is_snippet_for(done.text@, name@, key@, false)
                    },
                    Err(m) => if taken {
                        not_hashed(m@, key@)
                    } else {
                        refused_as_weak(m@, key@)
                    },
                }
            },
        },
{
    match supplied {
        None => {
            let token = match generate_token() {
                Ok(pair) => pair.0,
                Err(m) => return Err(m),
            };
            proof {
                crate::auth::lemma_minted_is_short(token@);
            }
            match crate::auth::hash_token(token.as_str()) {
                Ok(hash) => {
                    let text = print_snippet(name, hash.as_str(), token.as_str(), true);
                    assert(is_snippet_for(text@, name@, token@, true));
                    Ok(HashedToken { note: None, text })
                },
                Err(m) => Err(m),
            }
        },
        Some(key) => {
            let note = match assess_strength(key.as_str()) {
                Ok(strength) => KeyNote::Accepted(strength),
                Err(why) => {
                    if !allow_weak {
                        let mut m = "refusing to hash this key: ".to_owned();
                        m.append(why.as_str());
                        m.append(
                            ".\nThis key is the only thing between a client and your controller. Pass --allow-weak to override, or omit --token to have one generated.",
                        );
                        assert(refused_as_weak(m@, key@));
                        return Err(m);
                    }
                    let mut m = "custom key is weak (".to_owned();
                    m.append(why.as_str());
                    m.append(") — accepted because --allow-weak was given");
                    KeyNote::AcceptedWeak(m)
                },
            };
            assert(note_fits(note, key@));
            match crate::auth::hash_token(key.as_str()) {
                Ok(hash) => {
                    let text = print_snippet(name, hash.as_str(), key.as_str(), false);
                    assert(is_snippet_for(text@, name@, key@, false));
                    Ok(HashedToken { note: Some(note), text })
                },
                Err(m) => {
                    assert(not_hashed(m@, key@));
                    Err(m)
                },
            }
        },
    }
}

// ---------------------------------------------------------------------------
// fetch-fingerprint and healthcheck
// ---------------------------------------------------------------------------

/// The root of the controller that a fingerprint is asked of.
pub open spec fn probe_base(host: Seq<char>) -> Seq<char> {
    let h = crate::text::end_trimmed_of(host, "/"@);
    if "http://"@.is_prefix_of(host) || "https://"@.is_prefix_of(host) {
        h
    } else {
        "https://"@ + h
    }
}

/// What a probe asks for. What comes back is irrelevant: the handshake is what it
/// is for.
pub open spec fn probe_url(host: Seq<char>) -> Seq<char> {
    probe_base(host) + "/proxy/network/integration/v1/sites"@
}

/// What is printed of a fingerprint.
pub open spec fn fingerprint_report(host: Seq<char>, fp: Seq<char>) -> Seq<char> {
    "Certificate fingerprint for "@ + probe_base(host) + ":\n\n  "@ + fp
        + "\n\nPut it in your config.toml:\n\n[controller.tls]\nfingerprint_sha256 = \""@ + fp
        + "\"\n"@
}

fn base_of(host: &str) -> (r: String)
    ensures
        r@ == probe_base(host@),
{
    let h = trim_end_of(host, "/");
    if has_prefix(host, "http://") || has_prefix(host, "https://") {
        h
    } else {
        let mut r = "https://".to_owned();
        r.append(h.as_str());
        r
    }
}

/// The URL that a fingerprint is probed at.
pub fn probe_target(host: &str) -> (r: String)
    ensures
        r@ == probe_url(host@),
{
    let mut url = base_of(host);
    url.append("/proxy/network/integration/v1/sites");
    url
}

/// What `fetch-fingerprint` prints once a probe has seen a certificate.
pub fn report_fingerprint(host: &str, fp: &str) -> (r: String)
    ensures
        r@ == fingerprint_report(host@, fp@),
{
    let mut m = "Certificate fingerprint for ".to_owned();
    m.append(base_of(host).as_str());
    m.append(":\n\n  ");
    m.append(fp);
    m.append("\n\nPut it in your config.toml:\n\n[controller.tls]\nfingerprint_sha256 = \"");
    m.append(fp);
    m.append("\"\n");
    m
}

/// Whether a running instance is healthy, by the status that its probe came back
/// with.
pub fn healthcheck(url: &str, status: u16) -> (r: Result<(), String>)
    ensures
        if crate::upstream::is_success(status) {
            r is Ok
        } else {
            r is Err && r->Err_0@ == url@ + " answered HTTP "@ + crate::text::decimal(
                status as nat,
            )
        },
{
    if 200 <= status && status < 300 {
        Ok(())
    } else {
        let mut m = url.to_owned();
        m.append(" answered HTTP ");
        m.append(show(status as u64).as_str());
        Err(m)
    }
}

// ---------------------------------------------------------------------------
// check-config
// ---------------------------------------------------------------------------

/// How the connection to the controller is protected.
pub open spec fn tls_line(cfg: Config) -> Seq<char> {
    if crate::config::plaintext(cfg.controller.host@) {
        "NONE — plaintext http://, the API key travels unencrypted"@
    } else {
        match cfg.controller.tls.fingerprint_sha256 {
            Some(fps) => "pinned to "@ + crate::text::joined(
                crate::text::texts(fps@),
                " or "@,
            ),
            None => if cfg.controller.tls.insecure_skip_verify {
                "INSECURE — certificate not verified"@
            } else {
                "standard WebPKI verification"@
            },
        }
    }
}

/// How much an unauthenticated caller may ask for.
pub open spec fn pre_auth_line(limits: Limits) -> Seq<char> {
    if limits.rate_limit_per_ip_per_minute == 0 {
        "UNLIMITED — an unauthenticated caller can spend Argon2 time freely"@
    } else {
        crate::text::decimal(limits.rate_limit_per_ip_per_minute as nat)
            + " req/min per client IP"@
    }
}

/// What the report says before it comes to the tokens.
pub open spec fn report_head(cfg: Config, path: Seq<char>) -> Seq<char> {
    "Config OK: "@ + path + "\n\n  controller     "@ + cfg.controller.host@
        + "\n  tls            "@ + tls_line(cfg) + "\n  bind           "@ + cfg.server.bind@
        + "\n  global limits  "@ + crate::text::decimal(
        cfg.limits.max_vouchers_per_request as nat,
    ) + " vouchers/request, "@ + crate::text::decimal(cfg.limits.max_validity_minutes as nat)
        + " min validity, "@ + crate::text::decimal(cfg.limits.rate_limit_per_minute as nat)
        + " req/min\n  pre-auth       "@ + pre_auth_line(cfg.limits) + "\n\n  tokens ("@
        + crate::text::decimal(cfg.tokens@.len()) + "):\n"@
}

/// What the report says of one token: exactly what it may do.
pub open spec fn token_line(t: TokenView, limits: Limits) -> Seq<char> {
    "    "@ + crate::text::padded(t.name, 16) + " sites="@ + crate::text::padded(
        crate::text::joined(t.sites, ","@),
        24,
    ) + " scopes="@ + crate::text::joined(crate::routes::scope_names(t.scopes), ","@) + " (max "@
        + crate::text::decimal(t.effective_max_vouchers(limits) as nat) + " vouchers, "@
        + crate::text::decimal(t.effective_max_validity(limits) as nat) + " min, "@
        + crate::text::decimal(t.effective_rate_limit(limits) as nat) + " req/min)\n"@
}

/// What the report says of some tokens, up to the first whose hash cannot be
/// read.
pub open spec fn token_lines(tokens: Seq<TokenView>, limits: Limits) -> Seq<char>
    decreases tokens.len(),
{
    if tokens.len() == 0 || crate::crypto::phc_error(tokens[0].hash) is Some {
        seq![]
    } else {
        token_line(tokens[0], limits) + token_lines(tokens.drop_first(), limits)
    }
}

/// Why the first token whose hash cannot be read has none that can.
pub open spec fn bad_hash(tokens: Seq<TokenView>) -> Option<Seq<char>>
    decreases tokens.len(),
{
    if tokens.len() == 0 {
        None
    } else {
        match crate::crypto::phc_error(tokens[0].hash) {
            Some(why) => Some(why),
            None => bad_hash(tokens.drop_first()),
        }
    }
}

fn show_tls(cfg: &Config) -> (r: String)
    ensures
        r@ == tls_line(*cfg),
{
    if cfg.controller.is_plaintext() {
        return "NONE — plaintext http://, the API key travels unencrypted".to_owned();
    }
    match &cfg.controller.tls.fingerprint_sha256 {
        Some(fps) => {
            let mut m = "pinned to ".to_owned();
            m.append(join(fps, " or ").as_str());
            m
        },
        None => if cfg.controller.tls.insecure_skip_verify {
            "INSECURE — certificate not verified".to_owned()
        } else {
            "standard WebPKI verification".to_owned()
        },
    }
}

fn show_pre_auth(limits: &Limits) -> (r: String)
    ensures
        r@ == pre_auth_line(*limits),
{
    if limits.rate_limit_per_ip_per_minute == 0 {
        "UNLIMITED — an unauthenticated caller can spend Argon2 time freely".to_owned()
    } else {
        let mut m = show(limits.rate_limit_per_ip_per_minute as u64);
        m.append(" req/min per client IP");
        m
    }
}

fn show_head(cfg: &Config, path: &str) -> (r: String)
    ensures
        r@ == report_head(*cfg, path@),
{
    let mut m = "Config OK: ".to_owned();
    m.append(path);
    m.append("\n\n  controller     ");
    m.append(cfg.controller.host.as_str());
    m.append("\n  tls            ");
    m.append(show_tls(cfg).as_str());
    m.append("\n  bind           ");
    m.append(cfg.server.bind.as_str());
    m.append("\n  global limits  ");
    m.append(show(cfg.limits.max_vouchers_per_request as u64).as_str());
    m.append(" vouchers/request, ");
    m.append(show(cfg.limits.max_validity_minutes).as_str());
    m.append(" min validity, ");
    m.append(show(cfg.limits.rate_limit_per_minute as u64).as_str());
    m.append(" req/min\n  pre-auth       ");
    m.append(show_pre_auth(&cfg.limits).as_str());
    m.append("\n\n  tokens (");
    m.append(show_usize(cfg.tokens.len()).as_str());
    m.append("):\n");
    m
}

fn show_token(t: &TokenConfig, limits: &Limits) -> (r: String)
    ensures
        r@ == token_line(t@, *limits),
{
    let mut m = "    ".to_owned();
    m.append(pad(t.name.as_str(), 16).as_str());
    m.append(" sites=");
    m.append(pad(join(&t.sites, ",").as_str(), 24).as_str());
    m.append(" scopes=");
    m.append(join(&crate::routes::names_of(&t.scopes), ",").as_str());
    m.append(" (max ");
    m.append(show(t.effective_max_vouchers(limits) as u64).as_str());
    m.append(" vouchers, ");
    m.append(show(t.effective_max_validity(limits)).as_str());
    m.append(" min, ");
    m.append(show(t.effective_rate_limit(limits) as u64).as_str());
    m.append(" req/min)\n");
    m
}

/// Prints what a configuration that was loaded from `path` grants. The report
/// ends with the first token whose hash cannot be read, which is then said to be
/// so.
pub fn check_config(cfg: &Config, path: &str) -> (r: (String, Result<(), BadHash>))
    ensures
        r.0@ == report_head(*cfg, path@) + token_lines(
            crate::config::token_views(cfg.tokens@),
            cfg.limits,
        ),
        match bad_hash(crate::config::token_views(cfg.tokens@)) {
            None => r.1 is Ok,
            Some(why) => r.1 is Err && r.1->Err_0.cause@ == why,
        },
{
    let mut m = show_head(cfg, path);
    let ghost head = m@;
    let ghost all = crate::config::token_views(cfg.tokens@);
    let mut i: usize = 0;
    assert(all.skip(0) =~= all);
    while i < cfg.tokens.len()
        invariant
            i <= cfg.tokens@.len(),
            all == crate::config::token_views(cfg.tokens@),
            m@ + token_lines(all.skip(i as int), cfg.limits) == head + token_lines(
                all,
                cfg.limits,
            ),
            head == report_head(*cfg, path@),
            bad_hash(all) == bad_hash(all.skip(i as int)),
        decreases cfg.tokens.len() - i,
    {
        let t = &cfg.tokens[i];
        let ghost rest = all.skip(i as int);
        let ghost before = m@;
        assert(rest[0] == t@);
        assert(rest.drop_first() =~= all.skip(i + 1));
        if let Err(e) = load_hash_check(t.hash.as_str()) {
            assert(before + token_lines(rest, cfg.limits) =~= before);
            return (m, Err(e));
        }
        m.append(show_token(t, &cfg.limits).as_str());
        assert(m@ + token_lines(all.skip(i + 1), cfg.limits) =~= before + token_lines(
            rest,
            cfg.limits,
        ));
        i += 1;
    }
    assert(m@ + token_lines(all.skip(i as int), cfg.limits) =~= m@);
    (m, Ok(()))
}

/// Where every hash can be read, the report has a line for every token.
pub proof fn a_sound_config_is_reported_in_full(tokens: Seq<TokenView>, limits: Limits, i: int)
    requires
        bad_hash(tokens) is None,
        0 <= i < tokens.len(),
    ensures
        crate::text::occurs_in(token_line(tokens[i], limits), token_lines(tokens, limits)),
    decreases tokens.len(),
{
    let whole = token_lines(tokens, limits);
    let first = token_line(tokens[0], limits);
    let rest = token_lines(tokens.drop_first(), limits);
    if i == 0 {
        assert(whole.subrange(0, first.len() as int) =~= first);
        assert(crate::text::stands_at(whole, 0, first));
    } else {
        a_sound_config_is_reported_in_full(tokens.drop_first(), limits, i - 1);
        assert(tokens.drop_first()[i - 1] == tokens[i]);
        let line = token_line(tokens[i], limits);
        let at = choose|at: int| #[trigger] crate::text::stands_at(rest, at, line);
        assert(whole.subrange(first.len() + at, first.len() + at + line.len()) =~= rest.subrange(
            at,
            at + line.len(),
        ));
        assert(crate::text::stands_at(whole, first.len() + at, line));
    }
}

/// The warning about an unchecked certificate is given unless the operator asked
/// for silence, and silencing it changes no other warning.
pub proof fn silence_silences_one_warning_only(loud: Config, silent: Config)
    requires
        !loud.controller.tls.silence_insecure_warning,
        silent == (Config {
            controller: crate::config::ControllerConfig {
                tls: crate::config::TlsConfig {
                    silence_insecure_warning: true,
                    ..loud.controller.tls
                },
                ..loud.controller
            },
            ..loud
        }),
    ensures
        loud.controller.tls.insecure_skip_verify ==> weaknesses(loud) == seq![
            WeakSettingView::InsecureSkipVerify,
        ] + weaknesses(silent),
        !loud.controller.tls.insecure_skip_verify ==> weaknesses(loud) == weaknesses(silent),
{
    if loud.controller.tls.insecure_skip_verify {
        assert(weaknesses(loud) =~= seq![WeakSettingView::InsecureSkipVerify] + weaknesses(
            silent,
        ));
    }
}

proof fn lemma_wide_tokens(tokens: Seq<TokenView>, w: WeakSettingView)
    ensures
        wide_tokens(tokens).contains(w) <==> exists|i: int|
            0 <= i < tokens.len() && (#[trigger] tokens[i]).sites.contains("*"@) && w
                == WeakSettingView::EverySite(tokens[i].name),
    decreases tokens.len(),
{
    if tokens.len() > 0 {
        let front = tokens.drop_last();
        let t = tokens.last();
        lemma_wide_tokens(front, w);
        let a = wide_tokens(front);
        let b = warned(t.sites.contains("*"@), WeakSettingView::EverySite(t.name));
        lemma_contains_add(a, b, w);
        lemma_warned(t.sites.contains("*"@), WeakSettingView::EverySite(t.name), w);
        assert(tokens[tokens.len() - 1] == t);
        if exists|i: int|
            0 <= i < tokens.len() && (#[trigger] tokens[i]).sites.contains("*"@) && w
                == WeakSettingView::EverySite(tokens[i].name) {
            let i = choose|i: int|
                0 <= i < tokens.len() && (#[trigger] tokens[i]).sites.contains("*"@) && w
                    == WeakSettingView::EverySite(tokens[i].name);
            if i < front.len() {
                assert(front[i] == tokens[i]);
            }
        }
        if a.contains(w) {
            let i = choose|i: int|
                0 <= i < front.len() && (#[trigger] front[i]).sites.contains("*"@) && w
                    == WeakSettingView::EverySite(front[i].name);
            assert(tokens[i] == front[i]);
        }
    }
}

proof fn lemma_contains_add(
    a: Seq<WeakSettingView>,
    b: Seq<WeakSettingView>,
    w: WeakSettingView,
)
    ensures
        (a + b).contains(w) <==> a.contains(w) || b.contains(w),
{
    if a.contains(w) {
        let i = choose|i: int| 0 <= i < a.len() && a[i] == w;
        assert((a + b)[i] == w);
    }
    if b.contains(w) {
        let i = choose|i: int| 0 <= i < b.len() && b[i] == w;
        assert((a + b)[a.len() + i] == w);
    }
}

proof fn lemma_warned(when: bool, given: WeakSettingView, w: WeakSettingView)
    ensures
        warned(when, given).contains(w) <==> when && given == w,
{
    if when {
        assert(warned(when, given)[0] == given);
    }
}

/// The operator is warned of each thing that weakens the guarantees, and of nothing
/// else: a certificate that is not checked, unless silence was asked for, a key that
/// travels in the clear, sources without a limit, and every token that may use every
/// site, by its name.
pub proof fn every_weakness_is_called_out(cfg: Config, name: Seq<char>)
    ensures
        weaknesses(cfg).contains(WeakSettingView::InsecureSkipVerify)
            <==> cfg.controller.tls.insecure_skip_verify
            && !cfg.controller.tls.silence_insecure_warning,
        weaknesses(cfg).contains(WeakSettingView::Plaintext) <==> cfg.controller.tls.allow_plaintext
            && crate::config::plaintext(cfg.controller.host@),
        weaknesses(cfg).contains(WeakSettingView::NoSourceLimit)
            <==> cfg.limits.rate_limit_per_ip_per_minute == 0,
        weaknesses(cfg).contains(WeakSettingView::EverySite(name)) <==> exists|i: int|
            #![trigger cfg.tokens@[i]]
            0 <= i < cfg.tokens@.len() && cfg.tokens@[i]@.sites.contains("*"@)
                && cfg.tokens@[i]@.name == name,
{
    lemma_weaknesses(cfg, WeakSettingView::InsecureSkipVerify);
    lemma_weaknesses(cfg, WeakSettingView::Plaintext);
    lemma_weaknesses(cfg, WeakSettingView::NoSourceLimit);
    lemma_weaknesses(cfg, WeakSettingView::EverySite(name));
    let tokens = crate::config::token_views(cfg.tokens@);
    assert forall|i: int| 0 <= i < cfg.tokens@.len() implies #[trigger] tokens[i]
        == cfg.tokens@[i]@ by {}
    if exists|i: int|
        #![trigger cfg.tokens@[i]]
        0 <= i < cfg.tokens@.len() && cfg.tokens@[i]@.sites.contains("*"@) && cfg.tokens@[i]@.name
            == name {
        let i = choose|i: int|
            #![trigger cfg.tokens@[i]]
            0 <= i < cfg.tokens@.len() && cfg.tokens@[i]@.sites.contains("*"@)
                && cfg.tokens@[i]@.name == name;
        assert(tokens[i].sites.contains("*"@));
    }
    if weaknesses(cfg).contains(WeakSettingView::EverySite(name)) {
        let i = choose|i: int|
            0 <= i < tokens.len() && (#[trigger] tokens[i]).sites.contains("*"@)
                && WeakSettingView::EverySite(name) == WeakSettingView::EverySite(tokens[i].name);
        assert(cfg.tokens@[i]@.name == name);
    }
}

proof fn lemma_weaknesses(cfg: Config, w: WeakSettingView)
    ensures
        weaknesses(cfg).contains(w) <==> {
            ||| cfg.controller.tls.insecure_skip_verify
                && !cfg.controller.tls.silence_insecure_warning && w
                == WeakSettingView::InsecureSkipVerify
            ||| cfg.controller.tls.allow_plaintext && crate::config::plaintext(
                cfg.controller.host@,
            ) && w == WeakSettingView::Plaintext
            ||| cfg.limits.rate_limit_per_ip_per_minute == 0 && w == WeakSettingView::NoSourceLimit
            ||| exists|i: int|
                0 <= i < crate::config::token_views(cfg.tokens@).len() && (
                #[trigger] crate::config::token_views(cfg.tokens@)[i]).sites.contains("*"@) && w
                    == WeakSettingView::EverySite(crate::config::token_views(cfg.tokens@)[i].name)
        },
{
    let tls = cfg.controller.tls;
    let p = tls.insecure_skip_verify && !tls.silence_insecure_warning;
    let q = tls.allow_plaintext && crate::config::plaintext(cfg.controller.host@);
    let n = cfg.limits.rate_limit_per_ip_per_minute == 0;
    let a = warned(p, WeakSettingView::InsecureSkipVerify);
    let b = warned(q, WeakSettingView::Plaintext);
    let c = warned(n, WeakSettingView::NoSourceLimit);
    let d = wide_tokens(crate::config::token_views(cfg.tokens@));
    lemma_warned(p, WeakSettingView::InsecureSkipVerify, w);
    lemma_warned(q, WeakSettingView::Plaintext, w);
    lemma_warned(n, WeakSettingView::NoSourceLimit, w);
    lemma_wide_tokens(crate::config::token_views(cfg.tokens@), w);
    lemma_contains_add(a, b, w);
    lemma_contains_add(a + b, c, w);
    lemma_contains_add(a + b + c, d, w);
}

proof fn lemma_occurs(a: Seq<char>, b: Seq<char>, c: Seq<char>)
    ensures
        crate::text::occurs_in(b, a + b + c),
{
    assert((a + b + c).subrange(a.len() as int, a.len() as int + b.len()) =~= b);
    assert(crate::text::stands_at(a + b + c, a.len() as int, b));
}

/// The entry for a token holds its name and its hash. A token that was minted is
/// shown, the one time it can be; a key that the operator chose is not: the entry does
/// not depend on it.
pub proof fn a_chosen_key_is_never_printed(
    name: Seq<char>,
    hash: Seq<char>,
    token: Seq<char>,
    other: Seq<char>,
    generated: bool,
)
    ensures
        snippet(name, hash, token, false) == snippet(name, hash, other, false),
        crate::text::occurs_in(token, snippet(name, hash, token, true)),
        crate::text::occurs_in(
            "\nname = \""@ + name + "\"\nhash = \""@ + hash + "\"\n"@,
            snippet(name, hash, token, generated),
        ),
{
    let intro = "Add this to your config.toml:\n\n[[tokens]]\nname = \""@;
    let rest = "\"\nsites = [\"*\"]              # replace with explicit site ids where you can\nscopes = [\"sites:read\", \"vouchers:read\", \"vouchers:create\", \"vouchers:revoke\"]\n"@;
    reveal_strlit("Add this to your config.toml:\n\n[[tokens]]\nname = \"");
    reveal_strlit("\nname = \"");
    reveal_strlit("\"\n");
    reveal_strlit(
        "\"\nsites = [\"*\"]              # replace with explicit site ids where you can\nscopes = [\"sites:read\", \"vouchers:read\", \"vouchers:create\", \"vouchers:revoke\"]\n",
    );
    let entry = intro + name + "\"\nhash = \""@ + hash + rest;
    let told = "\nGive this token to the client — it is shown once and is not recoverable:\n\n  "@;
    lemma_occurs(entry + told, token, "\n\n"@);
    let core = "\nname = \""@ + name + "\"\nhash = \""@ + hash + "\"\n"@;
    let k = intro.len() - 9;
    let front = intro.take(k);
    let back = rest.skip(2);
    assert(intro =~= front + "\nname = \""@);
    assert(rest =~= "\"\n"@ + back);
    assert(entry =~= front + core + back);
    lemma_occurs(front, core, back + told + token + "\n\n"@);
    assert(snippet(name, hash, token, true) =~= front + core + (back + told + token + "\n\n"@));
    let kept = "\nOnly the hash is stored. Keep your key wherever you keep your other secrets;\nit cannot be recovered from the config.\n\n"@;
    lemma_occurs(front, core, back + kept);
    assert(snippet(name, hash, token, false) =~= front + core + (back + kept));
}

/// The line of a token tells the limits that it is held to, which are the tighter of
/// its own and the global ones.
pub proof fn a_token_is_reported_with_its_effective_limits(
    t: TokenView,
    limits: Limits,
    vouchers: nat,
    minutes: nat,
)
    requires
        crate::config::is_lesser(
            vouchers,
            crate::config::own_limit(t.max_vouchers_per_request),
            limits.max_vouchers_per_request as nat,
        ),
        crate::config::is_lesser(
            minutes,
            match t.max_validity_minutes {
                Some(own) => Some(own as nat),
                None => None,
            },
            limits.max_validity_minutes as nat,
        ),
    ensures
        crate::text::occurs_in(
            " (max "@ + crate::text::decimal(vouchers) + " vouchers, "@ + crate::text::decimal(
                minutes,
            ) + " min, "@ + crate::text::decimal(
                crate::ratelimit::allowance(t.rate_limit_per_minute, limits.rate_limit_per_minute),
            ) + " req/min)\n"@,
            token_line(t, limits),
        ),
        crate::text::occurs_in(
            " scopes="@ + crate::text::joined(
                Seq::new(t.scopes.len(), |i: int| t.scopes[i].name()),
                ","@,
            ) + " (max "@,
            token_line(t, limits),
        ),
        ("    "@ + t.name).is_prefix_of(token_line(t, limits)),
{
    let n = crate::ratelimit::allowance(t.rate_limit_per_minute, limits.rate_limit_per_minute);
    assert(n == t.effective_rate_limit(limits));
    assert(vouchers == t.effective_max_vouchers(limits));
    assert(minutes == t.effective_max_validity(limits));
    let names = crate::text::joined(crate::routes::scope_names(t.scopes), ","@);
    assert(crate::routes::scope_names(t.scopes) =~= Seq::new(
        t.scopes.len(),
        |i: int| t.scopes[i].name(),
    ));
    let a = "    "@ + crate::text::padded(t.name, 16) + " sites="@ + crate::text::padded(
        crate::text::joined(t.sites, ","@),
        24,
    );
    let b = a + " scopes="@ + names;
    let tail = " (max "@ + crate::text::decimal(vouchers) + " vouchers, "@
        + crate::text::decimal(minutes) + " min, "@ + crate::text::decimal(n) + " req/min)\n"@;
    lemma_line_parts(
        a,
        " scopes="@,
        names,
        " (max "@,
        crate::text::decimal(vouchers),
        " vouchers, "@,
        crate::text::decimal(minutes),
        " min, "@,
        crate::text::decimal(n),
        " req/min)\n"@,
    );
    lemma_occurs(b, tail, Seq::empty());
    assert(b + tail + Seq::<char>::empty() =~= b + tail);
    let mid = " scopes="@ + names + " (max "@;
    let end = crate::text::decimal(vouchers) + " vouchers, "@ + crate::text::decimal(minutes)
        + " min, "@ + crate::text::decimal(n) + " req/min)\n"@;
    lemma_occurs(a, mid, end);
    crate::text::padding_only_adds_spaces(t.name, 16);
    let padded = crate::text::padded(t.name, 16);
    let start = "    "@ + t.name;
    let first = "    "@ + padded;
    assert(first.subrange(0, start.len() as int) =~= start) by {
        assert forall|j: int| 0 <= j < t.name.len() implies padded[j] == t.name[j] by {
            assert(padded.subrange(0, t.name.len() as int)[j] == t.name[j]);
        }
    }
    let more = crate::text::padded(crate::text::joined(t.sites, ","@), 24);
    lemma_prefix_of_sum(start, first, " sites="@);
    lemma_prefix_of_sum(start, first + " sites="@, more);
    lemma_prefix_of_sum(start, a, mid);
    lemma_prefix_of_sum(start, a + mid, end);
}

proof fn lemma_prefix_of_sum(p: Seq<char>, a: Seq<char>, b: Seq<char>)
    requires
        p.is_prefix_of(a),
    ensures
        p.is_prefix_of(a + b),
{
    assert((a + b).subrange(0, p.len() as int) =~= a.subrange(0, p.len() as int));
}

proof fn lemma_assoc(a: Seq<char>, b: Seq<char>, c: Seq<char>)
    ensures
        a + b + c == a + (b + c),
{
    assert(a + b + c =~= a + (b + c));
}

/// A line of parts, taken apart in two ways.
proof fn lemma_line_parts(
    a: Seq<char>,
    s: Seq<char>,
    names: Seq<char>,
    m: Seq<char>,
    v: Seq<char>,
    t: Seq<char>,
    w: Seq<char>,
    u: Seq<char>,
    x: Seq<char>,
    y: Seq<char>,
)
    ensures
        a + s + names + m + v + t + w + u + x + y == (a + s + names) + (m + v + t + w + u + x + y),
        a + s + names + m + v + t + w + u + x + y == a + (s + names + m) + (v + t + w + u + x + y),
{
    let b = a + s + names;
    lemma_assoc(b, m, v);
    lemma_assoc(b, m + v, t);
    lemma_assoc(b, m + v + t, w);
    lemma_assoc(b, m + v + t + w, u);
    lemma_assoc(b, m + v + t + w + u, x);
    lemma_assoc(b, m + v + t + w + u + x, y);
    lemma_assoc(a, s, names);
    lemma_assoc(a, s + names, m);
    let c = a + (s + names + m);
    lemma_assoc(c, v, t);
    lemma_assoc(c, v + t, w);
    lemma_assoc(c, v + t + w, u);
    lemma_assoc(c, v + t + w + u, x);
    lemma_assoc(c, v + t + w + u + x, y);
}

/// The report tells how the controller is reached: in the clear where its URL says so,
/// else by the fingerprints that are pinned, else without any check where that is
/// switched off; and how many requests a source may make.
pub proof fn the_report_tells_how_the_controller_is_reached(cfg: Config)
    ensures
        ({
            let clear = crate::config::plaintext(cfg.controller.host@);
            let tls = cfg.controller.tls;
            &&& clear ==> tls_line(cfg)
                == "NONE — plaintext http://, the API key travels unencrypted"@
            &&& !clear && tls.fingerprint_sha256 is None && tls.insecure_skip_verify ==> tls_line(
                cfg,
            ) == "INSECURE — certificate not verified"@
            &&& !clear && tls.fingerprint_sha256 is None && !tls.insecure_skip_verify ==> tls_line(
                cfg,
            ) == "standard WebPKI verification"@
            &&& !clear && tls.fingerprint_sha256 is Some ==> tls_line(cfg) == "pinned to "@
                + crate::text::joined(
                crate::text::texts(tls.fingerprint_sha256->0@),
                " or "@,
            )
            &&& cfg.limits.rate_limit_per_ip_per_minute > 0 ==> pre_auth_line(cfg.limits)
                == crate::text::decimal(cfg.limits.rate_limit_per_ip_per_minute as nat)
                + " req/min per client IP"@
            &&& cfg.limits.rate_limit_per_ip_per_minute == 0 ==> pre_auth_line(cfg.limits)
                == "UNLIMITED — an unauthenticated caller can spend Argon2 time freely"@
        }),
{
}

/// The root that is probed is the host's, over HTTPS unless the host names a scheme
/// itself; slashes behind it make no difference. What is asked for is the list of
/// sites.
pub proof fn a_probe_goes_to_the_host(host: Seq<char>)
    ensures
        ({
            let h = crate::text::end_trimmed_of(host, "/"@);
            &&& "http://"@.is_prefix_of(host) || "https://"@.is_prefix_of(host) ==> probe_base(host)
                == h
            &&& !"http://"@.is_prefix_of(host) && !"https://"@.is_prefix_of(host) ==> probe_base(
                host,
            ) == "https://"@ + h
            &&& probe_url(host) == probe_base(host) + "/proxy/network/integration/v1/sites"@
        }),
{
}

/// What is printed of a fingerprint holds the setting to pin it with.
pub proof fn a_printed_fingerprint_can_be_pinned(host: Seq<char>, fp: Seq<char>)
    ensures
        crate::text::occurs_in(
            "fingerprint_sha256 = \""@ + fp + "\"\n"@,
            fingerprint_report(host, fp),
        ),
{
    let intro = "\n\nPut it in your config.toml:\n\n[controller.tls]\nfingerprint_sha256 = \""@;
    reveal_strlit(
        "\n\nPut it in your config.toml:\n\n[controller.tls]\nfingerprint_sha256 = \"",
    );
    reveal_strlit("fingerprint_sha256 = \"");
    let setting = "fingerprint_sha256 = \""@;
    let cut = intro.take(intro.len() - setting.len());
    assert(intro =~= cut + setting);
    let front = "Certificate fingerprint for "@ + probe_base(host) + ":\n\n  "@ + fp;
    let core = setting + fp + "\"\n"@;
    lemma_assoc(front, cut, setting);
    lemma_assoc(front + cut, setting, fp);
    lemma_assoc(front + cut, setting + fp, "\"\n"@);
    lemma_occurs(front + cut, core, Seq::empty());
    assert(front + cut + core + Seq::<char>::empty() =~= front + cut + core);
    assert(fingerprint_report(host, fp) == front + intro + fp + "\"\n"@);
}

proof fn lemma_occurs_and_more(p: Seq<char>, a: Seq<char>, b: Seq<char>)
    requires
        crate::text::occurs_in(p, a),
    ensures
        crate::text::occurs_in(p, a + b),
{
    let at = choose|at: int| #[trigger] crate::text::stands_at(a, at, p);
    assert((a + b).subrange(at, at + p.len()) =~= a.subrange(at, at + p.len()));
    assert(crate::text::stands_at(a + b, at, p));
}

/// The report tells the controller, the address to listen on and the global limits,
/// each as it is configured.
pub proof fn the_report_tells_the_settings(cfg: Config, path: Seq<char>)
    ensures
        crate::text::occurs_in(
            "\n\n  controller     "@ + cfg.controller.host@ + "\n  tls            "@,
            report_head(cfg, path),
        ),
        crate::text::occurs_in(
            "\n  bind           "@ + cfg.server.bind@ + "\n  global limits  "@
                + crate::text::decimal(cfg.limits.max_vouchers_per_request as nat)
                + " vouchers/request, "@ + crate::text::decimal(
                cfg.limits.max_validity_minutes as nat,
            ) + " min validity, "@ + crate::text::decimal(cfg.limits.rate_limit_per_minute as nat)
                + " req/min\n"@,
            report_head(cfg, path),
        ),
        crate::text::occurs_in(
            "  tokens ("@ + crate::text::decimal(cfg.tokens@.len()) + "):\n"@,
            report_head(cfg, path),
        ),
{
    let host = cfg.controller.host@;
    let tls = tls_line(cfg);
    let bind = cfg.server.bind@;
    let v = crate::text::decimal(cfg.limits.max_vouchers_per_request as nat);
    let m = crate::text::decimal(cfg.limits.max_validity_minutes as nat);
    let r = crate::text::decimal(cfg.limits.rate_limit_per_minute as nat);
    let pre = pre_auth_line(cfg.limits);
    let n = crate::text::decimal(cfg.tokens@.len());
    let p0 = "Config OK: "@;
    let p1 = "\n\n  controller     "@;
    let p2 = "\n  tls            "@;
    let p3 = "\n  bind           "@;
    let p4 = "\n  global limits  "@;
    let p5 = " vouchers/request, "@;
    let p6 = " min validity, "@;
    let p7 = " req/min\n  pre-auth       "@;
    let p8 = "\n\n  tokens ("@;
    let p9 = "):\n"@;
    let a = p0 + path;
    lemma_assoc(a, p1, host);
    lemma_assoc(a, p1 + host, p2);
    let first = p1 + host + p2;
    lemma_occurs(a, first, Seq::empty());
    assert(a + first + Seq::<char>::empty() =~= a + first);
    let b = a + p1 + host + p2 + tls;
    lemma_occurs_and_more(first, a + first, tls);
    lemma_assoc(b, p3, bind);
    lemma_assoc(b, p3 + bind, p4);
    lemma_assoc(b, p3 + bind + p4, v);
    lemma_assoc(b, p3 + bind + p4 + v, p5);
    lemma_assoc(b, p3 + bind + p4 + v + p5, m);
    lemma_assoc(b, p3 + bind + p4 + v + p5 + m, p6);
    lemma_assoc(b, p3 + bind + p4 + v + p5 + m + p6, r);
    let core = p3 + bind + p4 + v + p5 + m + p6 + r;
    let c = b + core;
    lemma_occurs_and_more(first, b, core);
    reveal_strlit(" req/min\n  pre-auth       ");
    reveal_strlit(" req/min\n");
    let cut = " req/min\n"@;
    let rest = p7.skip(cut.len() as int);
    assert(p7 =~= cut + rest);
    lemma_assoc(c, cut, rest);
    lemma_assoc(b, core, cut);
    let second = core + cut;
    lemma_occurs(b, second, Seq::empty());
    assert(b + second + Seq::<char>::empty() =~= b + second);
    lemma_occurs_and_more(second, b + second, rest);
    lemma_occurs_and_more(first, c, p7);
    let d = c + p7 + pre;
    lemma_occurs_and_more(second, c + p7, pre);
    lemma_occurs_and_more(first, c + p7, pre);
    reveal_strlit("\n\n  tokens (");
    reveal_strlit("  tokens (");
    let q = "  tokens ("@;
    let lead = p8.take(2);
    assert(p8 =~= lead + q);
    lemma_assoc(d, lead, q);
    lemma_assoc(d + lead, q, n);
    lemma_assoc(d + lead, q + n, p9);
    let third = q + n + p9;
    lemma_occurs(d + lead, third, Seq::empty());
    assert(d + lead + third + Seq::<char>::empty() =~= d + lead + third);
    lemma_occurs_and_more(first, d, lead);
    lemma_occurs_and_more(first, d + lead, third);
    lemma_occurs_and_more(second, d, lead);
    lemma_occurs_and_more(second, d + lead, third);
    assert(report_head(cfg, path) == d + p8 + n + p9);
}

} // verus!
