//! Counters, and their rendering in the Prometheus text format.

use vstd::prelude::*;
use vstd::string::*;

use crate::tally::{EntryView, Tally};
use crate::text;

verus! {

/// Counters exposed in Prometheus text format.
///
/// The whole surface is four counters and a latency sum without a histogram.
///
/// Label values are bounded by construction: token names and actions both come
/// from configuration or from a fixed set, so the tables cannot grow without
/// bound.
pub struct Metrics {
    requests: Tally,
    vouchers_created: Tally,
    upstream_latency_ms_total: u64,
    upstream_calls: u64,
    reloads: u64,
    reload_failures: u64,
}

/// What the counters stand at. The two tables are in ascending label order.
pub ghost struct MetricsView {
    /// Completed requests under token, action and outcome.
    pub requests: Seq<EntryView>,
    /// Vouchers issued under the token that issued them.
    pub vouchers_created: Seq<EntryView>,
    pub upstream_latency_ms_total: u64,
    pub upstream_calls: u64,
    pub reloads: u64,
    pub reload_failures: u64,
}

impl View for Metrics {
    type V = MetricsView;

    closed spec fn view(&self) -> MetricsView {
        MetricsView {
            requests: self.requests@,
            vouchers_created: self.vouchers_created@,
            upstream_latency_ms_total: self.upstream_latency_ms_total,
            upstream_calls: self.upstream_calls,
            reloads: self.reloads,
            reload_failures: self.reload_failures,
        }
    }
}

/// What an escaped character is written as.
pub open spec fn escaped_char(c: char) -> Seq<char> {
    if c == '\\' {
        seq!['\\', '\\']
    } else if c == '"' {
        seq!['\\', '"']
    } else if c == '\n' {
        seq!['\\', 'n']
    } else {
        seq![c]
    }
}

/// A label value as Prometheus wants it: backslash, quote and newline escaped,
/// and nothing else.
pub open spec fn escaped(s: Seq<char>) -> Seq<char>
    decreases s.len(),
{
    if s.len() == 0 {
        seq![]
    } else {
        escaped_char(s.first()) + escaped(s.drop_first())
    }
}

/// Whether `s` can stand between the quotes of a label value: every backslash
/// starts a pair, and outside such pairs there is no quote and no newline.
pub open spec fn quotable(s: Seq<char>) -> bool
    decreases s.len(),
{
    if s.len() == 0 {
        true
    } else if s[0] == '\\' {
        s.len() >= 2 && s[1] != '\n' && quotable(s.skip(2))
    } else {
        s[0] != '"' && s[0] != '\n' && quotable(s.drop_first())
    }
}

/// However a label value is chosen, it cannot end its quotes or its line early.
pub proof fn escaping_keeps_a_label_inside_its_quotes(s: Seq<char>)
    ensures
        quotable(escaped(s)),
    decreases s.len(),
{
    if s.len() > 0 {
        let rest = escaped(s.drop_first());
        escaping_keeps_a_label_inside_its_quotes(s.drop_first());
        let whole = escaped(s);
        if escaped_char(s[0]).len() == 2 {
            assert(whole.skip(2) =~= rest);
        } else {
            assert(whole.drop_first() =~= rest);
        }
    }
}

/// Two different label values are still different once escaped.
pub proof fn escaping_keeps_labels_apart(a: Seq<char>, b: Seq<char>)
    requires
        escaped(a) == escaped(b),
    ensures
        a == b,
    decreases a.len(),
{
    if a.len() == 0 || b.len() == 0 {
        assert(escaped(a).len() == escaped(b).len());
        assert(a =~= b);
    } else {
        let x = escaped_char(a[0]);
        let y = escaped_char(b[0]);
        assert(escaped(a)[0] == x[0]);
        assert(escaped(b)[0] == y[0]);
        if x.len() == 2 && y.len() == 2 {
            assert(escaped(a)[1] == x[1]);
            assert(escaped(b)[1] == y[1]);
        }
        assert(a[0] == b[0]);
        assert(escaped(a).skip(x.len() as int) =~= escaped(a.drop_first()));
        assert(escaped(b).skip(y.len() as int) =~= escaped(b.drop_first()));
        escaping_keeps_labels_apart(a.drop_first(), b.drop_first());
        assert(a =~= seq![a[0]] + a.drop_first());
        assert(b =~= seq![b[0]] + b.drop_first());
    }
}

/// The two comment lines that introduce a metric.
pub open spec fn heading(name: Seq<char>, help: Seq<char>, kind: Seq<char>) -> Seq<char> {
    "# HELP "@ + name + " "@ + help + "\n# TYPE "@ + name + " "@ + kind + "\n"@
}

/// The line of a metric without labels, up to its end.
pub open spec fn sample_row(name: Seq<char>, value: Seq<char>) -> Seq<char> {
    name + " "@ + value
}

/// The line of a metric without labels.
pub open spec fn sample(name: Seq<char>, value: Seq<char>) -> Seq<char> {
    sample_row(name, value) + "\n"@
}

/// The line of one entry of the request table, whose labels are token, action
/// and outcome, up to its end.
pub open spec fn request_row(e: EntryView) -> Seq<char> {
    "uvp_requests_total{token=\""@ + escaped(e.labels[0]) + "\",action=\""@ + escaped(e.labels[1])
        + "\",outcome=\""@ + escaped(e.labels[2]) + "\"} "@ + text::decimal(e.count as nat)
}

/// The line of one entry of the request table.
pub open spec fn request_line(e: EntryView) -> Seq<char> {
    request_row(e) + "\n"@
}

/// The line of one entry of the voucher table, whose label is the token, up to its
/// end.
pub open spec fn voucher_row(e: EntryView) -> Seq<char> {
    "uvp_vouchers_created_total{token=\""@ + escaped(e.labels[0]) + "\"} "@ + text::decimal(
        e.count as nat,
    )
}

/// The line of one entry of the voucher table.
pub open spec fn voucher_line(e: EntryView) -> Seq<char> {
    voucher_row(e) + "\n"@
}

/// The lines of the first `n` entries of the request table.
pub open spec fn request_lines(s: Seq<EntryView>, n: nat) -> Seq<char>
    decreases n,
{
    if n == 0 {
        seq![]
    } else {
        request_lines(s, (n - 1) as nat) + request_line(s[n - 1])
    }
}

/// The lines of the first `n` entries of the voucher table.
pub open spec fn voucher_lines(s: Seq<EntryView>, n: nat) -> Seq<char>
    decreases n,
{
    if n == 0 {
        seq![]
    } else {
        voucher_lines(s, (n - 1) as nat) + voucher_line(s[n - 1])
    }
}

/// Milliseconds as seconds with three decimal places.
pub open spec fn seconds(ms: nat) -> Seq<char> {
    text::decimal(ms / 1000) + "."@ + seq![
        text::digit_char(ms / 100 % 10),
        text::digit_char(ms / 10 % 10),
        text::digit_char(ms % 10),
    ]
}

impl MetricsView {
    pub open spec fn build_section(self, version: Seq<char>, tokens_configured: nat) -> Seq<char> {
        heading("uvp_build_info"@, "Version of the running proxy."@, "gauge"@)
            + "uvp_build_info{version=\""@ + version + "\"} 1\n"@ + heading(
            "uvp_tokens_configured"@,
            "Number of client tokens in the active config."@,
            "gauge"@,
        ) + sample("uvp_tokens_configured"@, text::decimal(tokens_configured))
    }

    pub open spec fn request_section(self) -> Seq<char> {
        heading(
            "uvp_requests_total"@,
            "Requests by token, action and outcome."@,
            "counter"@,
        ) + request_lines(self.requests, self.requests.len())
    }

    pub open spec fn voucher_section(self) -> Seq<char> {
        heading(
            "uvp_vouchers_created_total"@,
            "Vouchers issued through the proxy."@,
            "counter"@,
        ) + voucher_lines(self.vouchers_created, self.vouchers_created.len())
    }

    pub open spec fn upstream_section(self) -> Seq<char> {
        heading(
            "uvp_upstream_seconds_total"@,
            "Time spent waiting on the controller."@,
            "counter"@,
        ) + sample("uvp_upstream_seconds_total"@, seconds(self.upstream_latency_ms_total as nat))
            + heading("uvp_upstream_calls_total"@, "Calls made to the controller."@, "counter"@)
            + sample("uvp_upstream_calls_total"@, text::decimal(self.upstream_calls as nat))
    }

    pub open spec fn reload_section(self) -> Seq<char> {
        heading("uvp_config_reloads_total"@, "Successful SIGHUP reloads."@, "counter"@) + sample(
            "uvp_config_reloads_total"@,
            text::decimal(self.reloads as nat),
        ) + heading(
            "uvp_config_reload_failures_total"@,
            "Reloads rejected for a bad config."@,
            "counter"@,
        ) + sample(
            "uvp_config_reload_failures_total"@,
            text::decimal(self.reload_failures as nat),
        )
    }

    /// The whole page, in the Prometheus exposition format.
    pub open spec fn page(self, version: Seq<char>, tokens_configured: nat) -> Seq<char> {
        self.build_section(version, tokens_configured) + self.request_section()
            + self.voucher_section() + self.upstream_section() + self.reload_section()
    }
}

/// Escapes a label value: backslash, quote and newline, and nothing else.
/// Token names are operator-chosen, so this is not theoretical.
pub fn escape(value: &str) -> (r: String)
    ensures
        r@ == escaped(value@),
{
    let v = text::chars_of(value);
    let mut r = String::new();
    let mut i: usize = 0;
    assert(v@.skip(0) =~= v@);
    while i < v.len()
        invariant
            i <= v@.len(),
            v@ == value@,
            r@ + escaped(v@.skip(i as int)) == escaped(value@),
        decreases v.len() - i,
    {
        let c = v[i];
        let ghost before = r@;
        proof {
            assert(v@.skip(i as int).drop_first() =~= v@.skip(i + 1));
        }
        if c == '\\' || c == '"' {
            r.push('\\');
            r.push(c);
        } else if c == '\n' {
            r.push('\\');
            r.push('n');
        } else {
            r.push(c);
        }
        assert(r@ =~= before + escaped_char(c));
        assert(r@ + escaped(v@.skip(i + 1)) =~= before + (escaped_char(c) + escaped(
            v@.skip(i + 1),
        )));
        i += 1;
    }
    assert(v@.skip(i as int) =~= Seq::<char>::empty());
    assert(r@ =~= r@ + escaped(v@.skip(i as int)));
    r
}

fn push_heading(out: &mut String, name: &str, help: &str, kind: &str)
    ensures
        final(out)@ == old(out)@ + heading(name@, help@, kind@),
{
    out.append("# HELP ");
    out.append(name);
    out.append(" ");
    out.append(help);
    out.append("\n# TYPE ");
    out.append(name);
    out.append(" ");
    out.append(kind);
    out.append("\n");
    assert(out@ =~= old(out)@ + heading(name@, help@, kind@));
}

fn push_sample(out: &mut String, name: &str, value: &str)
    ensures
        final(out)@ == old(out)@ + sample(name@, value@),
{
    out.append(name);
    out.append(" ");
    out.append(value);
    out.append("\n");
    assert(out@ =~= old(out)@ + sample(name@, value@));
}

/// Milliseconds as seconds with three decimal places.
fn show_seconds(ms: u64) -> (r: String)
    ensures
        r@ == seconds(ms as nat),
{
    let mut r = text::show(ms / 1000);
    r.append(".");
    let hundreds: u8 = (ms / 100 % 10) as u8;
    let tens: u8 = (ms / 10 % 10) as u8;
    let ones: u8 = (ms % 10) as u8;
    r.push((48 + hundreds) as char);
    r.push((48 + tens) as char);
    r.push((48 + ones) as char);
    assert(r@ =~= seconds(ms as nat));
    r
}

/// Every entry of `s` carries `n` labels.
pub open spec fn labelled(s: Seq<EntryView>, n: nat) -> bool {
    forall|i: int| 0 <= i < s.len() ==> (#[trigger] s[i]).labels.len() == n
}

/// Counting under the right number of labels keeps every entry labelled.
pub proof fn lemma_still_labelled(
    before: Seq<EntryView>,
    after: Seq<EntryView>,
    key: Seq<Seq<char>>,
    n: nat,
)
    requires
        labelled(before, n),
        key.len() == n,
        crate::tally::only_changed(before, after, key),
    ensures
        labelled(after, n),
{
    assert forall|i: int| 0 <= i < after.len() implies (#[trigger] after[i]).labels.len() == n by {
        let k = after[i].labels;
        assert(crate::tally::counted(after, k));
        if k != key {
            assert(crate::tally::count_of(after, k) == crate::tally::count_of(before, k));
        }
    }
}

impl MetricsView {
    /// Whether the tables are in ascending label order, and carry the labels that
    /// their lines name.
    pub open spec fn well_formed(self) -> bool {
        &&& crate::tally::ascending(self.requests)
        &&& crate::tally::ascending(self.vouchers_created)
        &&& labelled(self.requests, 3)
        &&& labelled(self.vouchers_created, 1)
    }

    /// Counters that have counted nothing.
    pub open spec fn blank() -> MetricsView {
        MetricsView {
            requests: seq![],
            vouchers_created: seq![],
            upstream_latency_ms_total: 0,
            upstream_calls: 0,
            reloads: 0,
            reload_failures: 0,
        }
    }

    /// Whether `after` is these metrics with one request more under its labels,
    /// and nothing else changed.
    pub open spec fn counts_request(
        self,
        after: MetricsView,
        token: Seq<char>,
        action: Seq<char>,
        outcome: Seq<char>,
    ) -> bool {
        let key = seq![token, action, outcome];
        &&& crate::tally::ascending(after.requests)
        &&& crate::tally::counted(after.requests, key)
        &&& crate::tally::count_of(after.requests, key)
            == vstd::wrapping::u64_specs::wrapping_add(
            crate::tally::count_of(self.requests, key),
            1,
        )
        &&& crate::tally::only_changed(self.requests, after.requests, key)
        &&& after == (MetricsView { requests: after.requests, ..self })
    }

    /// Whether `after` is these metrics with `count` vouchers more under their
    /// token, and nothing else changed.
    pub open spec fn counts_vouchers(
        self,
        after: MetricsView,
        token: Seq<char>,
        count: u32,
    ) -> bool {
        let key = seq![token];
        &&& crate::tally::ascending(after.vouchers_created)
        &&& crate::tally::counted(after.vouchers_created, key)
        &&& crate::tally::count_of(after.vouchers_created, key)
            == vstd::wrapping::u64_specs::wrapping_add(
            crate::tally::count_of(self.vouchers_created, key),
            count as u64,
        )
        &&& crate::tally::only_changed(self.vouchers_created, after.vouchers_created, key)
        &&& after == (MetricsView { vouchers_created: after.vouchers_created, ..self })
    }

    /// These metrics with one call to the controller more.
    pub open spec fn with_upstream(self, elapsed_ms: u64) -> MetricsView {
        MetricsView {
            upstream_latency_ms_total: vstd::wrapping::u64_specs::wrapping_add(
                self.upstream_latency_ms_total,
                elapsed_ms,
            ),
            upstream_calls: vstd::wrapping::u64_specs::wrapping_add(self.upstream_calls, 1),
            ..self
        }
    }

    /// These metrics with one attempt more to re-read the configuration.
    pub open spec fn with_reload(self, ok: bool) -> MetricsView {
        if ok {
            MetricsView {
                reloads: vstd::wrapping::u64_specs::wrapping_add(self.reloads, 1),
                ..self
            }
        } else {
            MetricsView {
                reload_failures: vstd::wrapping::u64_specs::wrapping_add(self.reload_failures, 1),
                ..self
            }
        }
    }
}

impl Metrics {
    #[verifier::type_invariant]
    spec fn orderly(&self) -> bool {
        self@.well_formed()
    }

    /// One completed request: which token, which action, how it ended.
    pub fn record_request(&mut self, token: &str, action: &str, outcome: &str)
        ensures
            old(self)@.well_formed(),
            final(self)@.well_formed(),
            old(self)@.counts_request(final(self)@, token@, action@, outcome@),
    {
        proof {
            use_type_invariant(&*self);
        }
        let mut labels: Vec<String> = Vec::new();
        labels.push(token.to_owned());
        labels.push(action.to_owned());
        labels.push(outcome.to_owned());
        let ghost key = seq![token@, action@, outcome@];
        assert(text::texts(labels@) =~= key);
        let ghost before = self@.requests;
        let mut table = Tally::new();
        std::mem::swap(&mut table, &mut self.requests);
        table.bump(labels, 1);
        proof {
            lemma_still_labelled(before, table@, key, 3);
        }
        self.requests = table;
    }

    /// Vouchers actually issued: the number that matters for a hotspot, and the
    /// one worth alerting on if it spikes.
    pub fn record_vouchers_created(&mut self, token: &str, count: u32)
        ensures
            old(self)@.well_formed(),
            final(self)@.well_formed(),
            old(self)@.counts_vouchers(final(self)@, token@, count),
    {
        proof {
            use_type_invariant(&*self);
        }
        let mut labels: Vec<String> = Vec::new();
        labels.push(token.to_owned());
        let ghost key = seq![token@];
        assert(text::texts(labels@) =~= key);
        let ghost before = self@.vouchers_created;
        let mut table = Tally::new();
        std::mem::swap(&mut table, &mut self.vouchers_created);
        table.bump(labels, count as u64);
        proof {
            lemma_still_labelled(before, table@, key, 1);
        }
        self.vouchers_created = table;
    }

    /// One call to the controller and how long it took. The sums wrap.
    pub fn record_upstream(&mut self, elapsed_ms: u64)
        ensures
            final(self)@.well_formed(),
            final(self)@ == old(self)@.with_upstream(elapsed_ms),
    {
        proof {
            use_type_invariant(&*self);
        }
        let total: u64 = self.upstream_latency_ms_total.wrapping_add(elapsed_ms);
        let calls: u64 = self.upstream_calls.wrapping_add(1);
        self.upstream_latency_ms_total = total;
        self.upstream_calls = calls;
    }

    /// One attempt to re-read the configuration. The sums wrap.
    pub fn record_reload(&mut self, ok: bool)
        ensures
            final(self)@.well_formed(),
            final(self)@ == old(self)@.with_reload(ok),
    {
        proof {
            use_type_invariant(&*self);
        }
        if ok {
            let n: u64 = self.reloads.wrapping_add(1);
            self.reloads = n;
        } else {
            let n: u64 = self.reload_failures.wrapping_add(1);
            self.reload_failures = n;
        }
    }

    fn push_requests(&self, out: &mut String)
        ensures
            final(out)@ == old(out)@ + request_lines(self@.requests, self@.requests.len()),
    {
        proof {
            use_type_invariant(self);
        }
        let ghost start = out@;
        let n: usize = self.requests.len();
        let mut i: usize = 0;
        assert(out@ =~= start + request_lines(self@.requests, 0));
        while i < n
            invariant
                i <= n == self.requests@.len(),
                labelled(self.requests@, 3),
                self@.requests == self.requests@,
                out@ == start + request_lines(self@.requests, i as nat),
            decreases n - i,
        {
            let ghost before = out@;
            let entry = self.requests.get(i);
            let ghost e = self.requests@[i as int];
            assert(e.labels.len() == 3);
            assert(entry.labels@.len() == 3);
            out.append("uvp_requests_total{token=\"");
            out.append(escape(entry.labels[0].as_str()).as_str());
            out.append("\",action=\"");
            out.append(escape(entry.labels[1].as_str()).as_str());
            out.append("\",outcome=\"");
            out.append(escape(entry.labels[2].as_str()).as_str());
            out.append("\"} ");
            out.append(text::show(entry.count).as_str());
            out.append("\n");
            i += 1;
            assert(out@ =~= before + request_line(e));
            assert(out@ =~= start + request_lines(self@.requests, i as nat));
        }
    }

    fn push_vouchers(&self, out: &mut String)
        ensures
            final(out)@ == old(out)@ + voucher_lines(
                self@.vouchers_created,
                self@.vouchers_created.len(),
            ),
    {
        proof {
            use_type_invariant(self);
        }
        let ghost start = out@;
        let n: usize = self.vouchers_created.len();
        let mut i: usize = 0;
        assert(out@ =~= start + voucher_lines(self@.vouchers_created, 0));
        while i < n
            invariant
                i <= n == self.vouchers_created@.len(),
                labelled(self.vouchers_created@, 1),
                self@.vouchers_created == self.vouchers_created@,
                out@ == start + voucher_lines(self@.vouchers_created, i as nat),
            decreases n - i,
        {
            let ghost before = out@;
            let entry = self.vouchers_created.get(i);
            let ghost e = self.vouchers_created@[i as int];
            assert(e.labels.len() == 1);
            assert(entry.labels@.len() == 1);
            out.append("uvp_vouchers_created_total{token=\"");
            out.append(escape(entry.labels[0].as_str()).as_str());
            out.append("\"} ");
            out.append(text::show(entry.count).as_str());
            out.append("\n");
            i += 1;
            assert(out@ =~= before + voucher_line(e));
            assert(out@ =~= start + voucher_lines(self@.vouchers_created, i as nat));
        }
    }

    /// Renders the Prometheus exposition format.
    pub fn render(&self, version: &str, tokens_configured: usize) -> (r: String)
        ensures
            self@.well_formed(),
            r@ == self@.page(version@, tokens_configured as nat),
    {
        proof {
            use_type_invariant(self);
        }
        let mut out = String::new();

        push_heading(&mut out, "uvp_build_info", "Version of the running proxy.", "gauge");
        out.append("uvp_build_info{version=\"");
        out.append(version);
        out.append("\"} 1\n");
        push_heading(
            &mut out,
            "uvp_tokens_configured",
            "Number of client tokens in the active config.",
            "gauge",
        );
        push_sample(
            &mut out,
            "uvp_tokens_configured",
            text::show_usize(tokens_configured).as_str(),
        );
        let ghost built = out@;
        assert(built =~= self@.build_section(version@, tokens_configured as nat));

        push_heading(
            &mut out,
            "uvp_requests_total",
            "Requests by token, action and outcome.",
            "counter",
        );
        self.push_requests(&mut out);
        let ghost requested = out@;
        assert(requested =~= built + self@.request_section());

        push_heading(
            &mut out,
            "uvp_vouchers_created_total",
            "Vouchers issued through the proxy.",
            "counter",
        );
        self.push_vouchers(&mut out);
        let ghost issued = out@;
        assert(issued =~= requested + self@.voucher_section());

        push_heading(
            &mut out,
            "uvp_upstream_seconds_total",
            "Time spent waiting on the controller.",
            "counter",
        );
        push_sample(
            &mut out,
            "uvp_upstream_seconds_total",
            show_seconds(self.upstream_latency_ms_total).as_str(),
        );
        push_heading(
            &mut out,
            "uvp_upstream_calls_total",
            "Calls made to the controller.",
            "counter",
        );
        push_sample(&mut out, "uvp_upstream_calls_total", text::show(self.upstream_calls).as_str());
        let ghost waited = out@;
        assert(waited =~= issued + self@.upstream_section());

        push_heading(
            &mut out,
            "uvp_config_reloads_total",
            "Successful SIGHUP reloads.",
            "counter",
        );
        push_sample(&mut out, "uvp_config_reloads_total", text::show(self.reloads).as_str());
        push_heading(
            &mut out,
            "uvp_config_reload_failures_total",
            "Reloads rejected for a bad config.",
            "counter",
        );
        push_sample(
            &mut out,
            "uvp_config_reload_failures_total",
            text::show(self.reload_failures).as_str(),
        );
        assert(out@ =~= waited + self@.reload_section());
        out
    }
}

impl Default for Metrics {
    /// Counters that have counted nothing.
    fn default() -> (r: Self)
        ensures
            r@ == MetricsView::blank(),
            r@.well_formed(),
    {
        Metrics {
            requests: Tally::new(),
            vouchers_created: Tally::new(),
            upstream_latency_ms_total: 0,
            upstream_calls: 0,
            reloads: 0,
            reload_failures: 0,
        }
    }
}

/// Escaping works character by character: a backslash stands before a backslash and
/// before a quote, a line break becomes a backslash and an `n`, and every other
/// character is kept.
pub proof fn escaping_works_character_by_character(c: char, rest: Seq<char>)
    ensures
        escaped(Seq::<char>::empty()) == Seq::<char>::empty(),
        c == '\\' || c == '"' ==> escaped(seq![c] + rest) == seq!['\\', c] + escaped(rest),
        c == '\n' ==> escaped(seq![c] + rest) == seq!['\\', 'n'] + escaped(rest),
        c != '\\' && c != '"' && c != '\n' ==> escaped(seq![c] + rest) == seq![c] + escaped(rest),
{
    assert((seq![c] + rest).drop_first() =~= rest);
}

proof fn lemma_three_digits(a: nat, b: nat, c: nat)
    requires
        a < 10,
        b < 10,
        c < 10,
    ensures
        ({
            let part = seq![text::digit_char(a), text::digit_char(b), text::digit_char(c)];
            text::all_digits(part) && text::digits_value(part) == a * 100 + b * 10 + c
        }),
{
    let three = seq![text::digit_char(a), text::digit_char(b), text::digit_char(c)];
    let two = seq![text::digit_char(a), text::digit_char(b)];
    let one = seq![text::digit_char(a)];
    assert(one.drop_last() =~= seq![]);
    assert(two.drop_last() =~= one);
    assert(three.drop_last() =~= two);
    assert(text::digits_value(Seq::<char>::empty()) == 0);
    assert(text::digits_value(one) == a);
    assert(text::digits_value(two) == a * 10 + b);
}

/// Milliseconds are shown as whole seconds, a point, and three digits for the rest.
pub proof fn seconds_lose_no_millisecond(ms: nat)
    ensures
        exists|whole: Seq<char>, part: Seq<char>|
            seconds(ms) == #[trigger] (whole + "."@ + part) && part.len() == 3
                && text::all_digits(part) && text::all_digits(whole) && text::digits_value(whole)
                * 1000 + text::digits_value(part) == ms,
{
    let whole = text::decimal(ms / 1000);
    let part = seq![
        text::digit_char(ms / 100 % 10),
        text::digit_char(ms / 10 % 10),
        text::digit_char(ms % 10),
    ];
    text::a_number_is_written_as_it_reads(ms / 1000);
    lemma_three_digits(ms / 100 % 10, ms / 10 % 10, ms % 10);
    assert((ms / 100 % 10) * 100 + (ms / 10 % 10) * 10 + ms % 10 == ms % 1000);
    assert(seconds(ms) == whole + "."@ + part);
}

} // verus!
