//! What holds of the metrics page as a whole: its lines, and how they tell what
//! was recorded.

use vstd::prelude::*;

use crate::metrics::{self, MetricsView};
use crate::tally::{self, EntryView};
use crate::text;

verus! {

// ---------------------------------------------------------------------------
// Lines
// ---------------------------------------------------------------------------

/// The text that some lines make, each of them ended.
pub open spec fn unlines(lines: Seq<Seq<char>>) -> Seq<char>
    decreases lines.len(),
{
    if lines.len() == 0 {
        seq![]
    } else {
        unlines(lines.drop_last()) + (lines.last() + "\n"@)
    }
}

/// Whether a text can be one line.
pub open spec fn unbroken(s: Seq<char>) -> bool {
    forall|i: int| 0 <= i < s.len() ==> #[trigger] s[i] != '\n'
}

/// Whether a line is one of the comments that the format knows.
pub open spec fn is_comment(line: Seq<char>) -> bool {
    "# HELP "@.is_prefix_of(line) || "# TYPE "@.is_prefix_of(line)
}

/// Whether a text is a number as the page writes it: digits, with or without a
/// point among them.
pub open spec fn is_number(s: Seq<char>) -> bool {
    text::all_digits(s) || exists|whole: Seq<char>, part: Seq<char>|
        text::all_digits(whole) && text::all_digits(part) && s == #[trigger] (whole + "."@ + part)
}

/// Whether a line is a sample: something that is no comment, a space, and a
/// number.
pub open spec fn is_sample(line: Seq<char>) -> bool {
    exists|name: Seq<char>, value: Seq<char>|
        line == #[trigger] metrics::sample_row(name, value) && name.len() > 0 && name[0] != '#'
            && is_number(value)
}

proof fn lemma_unlines_add(a: Seq<Seq<char>>, b: Seq<Seq<char>>)
    ensures
        unlines(a + b) == unlines(a) + unlines(b),
    decreases b.len(),
{
    if b.len() == 0 {
        assert(a + b =~= a);
        assert(unlines(a) + unlines(b) =~= unlines(a));
    } else {
        assert((a + b).drop_last() =~= a + b.drop_last());
        lemma_unlines_add(a, b.drop_last());
        assert(unlines(a + b) =~= unlines(a) + unlines(b));
    }
}

proof fn lemma_unlines_one(line: Seq<char>)
    ensures
        unlines(seq![line]) == line + "\n"@,
{
    let one = seq![line];
    assert(one.drop_last() =~= seq![]);
    assert(unlines(one.drop_last()) =~= seq![]);
    assert(unlines(one) =~= line + "\n"@);
}

/// The lines that make a text are the pieces between its line ends.
proof fn lemma_lines_are_pieces(lines: Seq<Seq<char>>)
    requires
        forall|i: int| 0 <= i < lines.len() ==> unbroken(#[trigger] lines[i]),
    ensures
        text::pieces(unlines(lines), '\n') == lines.push(seq![]),
    decreases lines.len(),
{
    reveal_strlit("\n");
    if lines.len() == 0 {
        assert(lines.push(seq![]) =~= seq![Seq::<char>::empty()]);
    } else {
        let front = lines.drop_last();
        let line = lines.last();
        assert forall|i: int| 0 <= i < front.len() implies unbroken(#[trigger] front[i]) by {
            assert(front[i] == lines[i]);
        }
        lemma_lines_are_pieces(front);
        assert(unbroken(lines[lines.len() - 1]));
        let start = unlines(front);
        lemma_pieces_of_last_line(start, line);
        assert(unlines(lines) =~= (start + line).push('\n'));
        assert(unlines(lines).drop_last() =~= start + line);
        let p = text::pieces(start, '\n');
        assert(p.drop_last() =~= front);
        assert(p.last() =~= seq![]);
        assert(p.last() + line =~= line);
        assert(front.push(line) =~= lines);
    }
}

proof fn lemma_pieces_of_last_line(start: Seq<char>, line: Seq<char>)
    requires
        unbroken(line),
    ensures
        text::pieces(start + line, '\n') == text::pieces(start, '\n').drop_last().push(
            text::pieces(start, '\n').last() + line,
        ),
    decreases line.len(),
{
    let p = text::pieces(start, '\n');
    text::lemma_pieces_are_some(start, '\n');
    if line.len() == 0 {
        assert(start + line =~= start);
        assert(p.last() + line =~= p.last());
        assert(p.drop_last().push(p.last()) =~= p);
    } else {
        let front = line.drop_last();
        assert(unbroken(front)) by {
            assert forall|i: int| 0 <= i < front.len() implies #[trigger] front[i] != '\n' by {
                assert(front[i] == line[i]);
            }
        }
        lemma_pieces_of_last_line(start, front);
        let whole = start + line;
        assert(whole.drop_last() =~= start + front);
        assert(whole.last() == line[line.len() - 1]);
        let q = text::pieces(start + front, '\n');
        assert(q.drop_last() =~= p.drop_last());
        assert((p.last() + front).push(line.last()) =~= p.last() + line);
    }
}

broadcast proof fn lemma_unbroken_add(a: Seq<char>, b: Seq<char>)
    requires
        unbroken(a),
        unbroken(b),
    ensures
        #[trigger] unbroken(a + b),
{
    assert forall|i: int| 0 <= i < (a + b).len() implies #[trigger] (a + b)[i] != '\n' by {
        if i < a.len() {
            assert((a + b)[i] == a[i]);
        } else {
            assert((a + b)[i] == b[i - a.len()]);
        }
    }
}

proof fn lemma_escaped_is_unbroken(s: Seq<char>)
    ensures
        unbroken(metrics::escaped(s)),
    decreases s.len(),
{
    if s.len() > 0 {
        lemma_escaped_is_unbroken(s.drop_first());
        assert(unbroken(metrics::escaped_char(s[0])));
        lemma_unbroken_add(metrics::escaped_char(s[0]), metrics::escaped(s.drop_first()));
    }
}

proof fn lemma_decimal_is_digits(n: nat)
    ensures
        text::all_digits(text::decimal(n)),
        unbroken(text::decimal(n)),
    decreases n,
{
    let s = text::decimal(n);
    if n >= 10 {
        lemma_decimal_is_digits(n / 10);
    }
    assert forall|i: int| 0 <= i < s.len() implies text::is_digit(#[trigger] s[i]) by {
        if n >= 10 && i < s.len() - 1 {
            assert(s[i] == text::decimal(n / 10)[i]);
        }
    }
    lemma_digits_are_unbroken(s);
}

proof fn lemma_digits_are_unbroken(s: Seq<char>)
    requires
        text::all_digits(s),
    ensures
        unbroken(s),
{
    assert forall|i: int| 0 <= i < s.len() implies #[trigger] s[i] != '\n' by {
        assert(text::is_digit(s[i]));
    }
}

proof fn lemma_seconds_are_a_number(ms: nat)
    ensures
        is_number(metrics::seconds(ms)),
        unbroken(metrics::seconds(ms)),
{
    reveal_strlit(".");
    let whole = text::decimal(ms / 1000);
    let part = seq![
        text::digit_char(ms / 100 % 10),
        text::digit_char(ms / 10 % 10),
        text::digit_char(ms % 10),
    ];
    lemma_decimal_is_digits(ms / 1000);
    assert(text::all_digits(part));
    lemma_digits_are_unbroken(part);
    assert(metrics::seconds(ms) == whole + "."@ + part);
    assert(unbroken("."@));
    lemma_unbroken_add(whole, "."@);
    lemma_unbroken_add(whole + "."@, part);
}

// ---------------------------------------------------------------------------
// The lines of the page
// ---------------------------------------------------------------------------

/// The two comment lines that introduce a metric.
pub open spec fn heading_lines(
    name: Seq<char>,
    help: Seq<char>,
    kind: Seq<char>,
) -> Seq<Seq<char>> {
    seq!["# HELP "@ + name + " "@ + help, "# TYPE "@ + name + " "@ + kind]
}

/// The line that names the version, up to its end.
pub open spec fn build_row(version: Seq<char>) -> Seq<char> {
    "uvp_build_info{version=\""@ + version + "\"} 1"@
}

impl MetricsView {
    pub open spec fn build_lines(self, version: Seq<char>, tokens: nat) -> Seq<Seq<char>> {
        heading_lines("uvp_build_info"@, "Version of the running proxy."@, "gauge"@) + seq![
            build_row(version),
        ] + heading_lines(
            "uvp_tokens_configured"@,
            "Number of client tokens in the active config."@,
            "gauge"@,
        ) + seq![metrics::sample_row("uvp_tokens_configured"@, text::decimal(tokens))]
    }

    /// The lines of the request table, one for each set of labels.
    pub open spec fn request_rows(self) -> Seq<Seq<char>> {
        self.requests.map_values(|e: EntryView| metrics::request_row(e))
    }

    /// The lines of the voucher table, one for each token.
    pub open spec fn voucher_rows(self) -> Seq<Seq<char>> {
        self.vouchers_created.map_values(|e: EntryView| metrics::voucher_row(e))
    }

    pub open spec fn upstream_lines(self) -> Seq<Seq<char>> {
        heading_lines(
            "uvp_upstream_seconds_total"@,
            "Time spent waiting on the controller."@,
            "counter"@,
        ) + seq![
            metrics::sample_row(
                "uvp_upstream_seconds_total"@,
                metrics::seconds(self.upstream_latency_ms_total as nat),
            ),
        ] + heading_lines(
            "uvp_upstream_calls_total"@,
            "Calls made to the controller."@,
            "counter"@,
        ) + seq![
            metrics::sample_row(
                "uvp_upstream_calls_total"@,
                text::decimal(self.upstream_calls as nat),
            ),
        ]
    }

    pub open spec fn reload_lines(self) -> Seq<Seq<char>> {
        heading_lines("uvp_config_reloads_total"@, "Successful SIGHUP reloads."@, "counter"@)
            + seq![
            metrics::sample_row("uvp_config_reloads_total"@, text::decimal(self.reloads as nat)),
        ] + heading_lines(
            "uvp_config_reload_failures_total"@,
            "Reloads rejected for a bad config."@,
            "counter"@,
        ) + seq![
            metrics::sample_row(
                "uvp_config_reload_failures_total"@,
                text::decimal(self.reload_failures as nat),
            ),
        ]
    }

    pub open spec fn request_table(self) -> Seq<Seq<char>> {
        heading_lines(
            "uvp_requests_total"@,
            "Requests by token, action and outcome."@,
            "counter"@,
        ) + self.request_rows()
    }

    pub open spec fn voucher_table(self) -> Seq<Seq<char>> {
        heading_lines(
            "uvp_vouchers_created_total"@,
            "Vouchers issued through the proxy."@,
            "counter"@,
        ) + self.voucher_rows()
    }

    /// The lines of the page, in their order.
    pub open spec fn lines(self, version: Seq<char>, tokens: nat) -> Seq<Seq<char>> {
        self.build_lines(version, tokens) + self.request_table() + self.voucher_table()
            + self.upstream_lines() + self.reload_lines()
    }
}

proof fn lemma_heading(name: Seq<char>, help: Seq<char>, kind: Seq<char>)
    ensures
        metrics::heading(name, help, kind) == unlines(heading_lines(name, help, kind)),
{
    let a = "# HELP "@ + name + " "@ + help;
    let b = "# TYPE "@ + name + " "@ + kind;
    reveal_strlit("\n");
    reveal_strlit("# TYPE ");
    reveal_strlit("\n# TYPE ");
    assert("\n# TYPE "@ =~= "\n"@ + "# TYPE "@);
    assert(heading_lines(name, help, kind) =~= seq![a] + seq![b]);
    lemma_unlines_add(seq![a], seq![b]);
    lemma_unlines_one(a);
    lemma_unlines_one(b);
    assert(metrics::heading(name, help, kind) =~= (a + "\n"@) + (b + "\n"@));
}

proof fn lemma_request_lines(s: Seq<EntryView>, n: nat)
    requires
        n <= s.len(),
    ensures
        metrics::request_lines(s, n) == unlines(
            s.map_values(|e: EntryView| metrics::request_row(e)).take(n as int),
        ),
    decreases n,
{
    let rows = s.map_values(|e: EntryView| metrics::request_row(e));
    if n > 0 {
        lemma_request_lines(s, (n - 1) as nat);
        assert(rows.take(n as int).drop_last() =~= rows.take(n - 1));
        assert(rows.take(n as int).last() == metrics::request_row(s[n - 1]));
    }
}

proof fn lemma_voucher_lines(s: Seq<EntryView>, n: nat)
    requires
        n <= s.len(),
    ensures
        metrics::voucher_lines(s, n) == unlines(
            s.map_values(|e: EntryView| metrics::voucher_row(e)).take(n as int),
        ),
    decreases n,
{
    let rows = s.map_values(|e: EntryView| metrics::voucher_row(e));
    if n > 0 {
        lemma_voucher_lines(s, (n - 1) as nat);
        assert(rows.take(n as int).drop_last() =~= rows.take(n - 1));
        assert(rows.take(n as int).last() == metrics::voucher_row(s[n - 1]));
    }
}

/// A metric with a single sample, as text and as lines.
proof fn lemma_single(name: Seq<char>, help: Seq<char>, kind: Seq<char>, row: Seq<char>)
    ensures
        metrics::heading(name, help, kind) + (row + "\n"@) == unlines(
            heading_lines(name, help, kind) + seq![row],
        ),
{
    lemma_heading(name, help, kind);
    lemma_unlines_one(row);
    lemma_unlines_add(heading_lines(name, help, kind), seq![row]);
}

proof fn lemma_build_is_its_lines(m: MetricsView, version: Seq<char>, tokens: nat)
    ensures
        m.build_section(version, tokens) == unlines(m.build_lines(version, tokens)),
{
    reveal_strlit("\n");
    reveal_strlit("\"} 1");
    reveal_strlit("\"} 1\n");
    assert("\"} 1\n"@ =~= "\"} 1"@ + "\n"@);
    let a = metrics::sample_row("uvp_tokens_configured"@, text::decimal(tokens));
    lemma_single(
        "uvp_build_info"@,
        "Version of the running proxy."@,
        "gauge"@,
        build_row(version),
    );
    lemma_single(
        "uvp_tokens_configured"@,
        "Number of client tokens in the active config."@,
        "gauge"@,
        a,
    );
    let x = heading_lines("uvp_build_info"@, "Version of the running proxy."@, "gauge"@) + seq![
        build_row(version),
    ];
    let y = heading_lines(
        "uvp_tokens_configured"@,
        "Number of client tokens in the active config."@,
        "gauge"@,
    ) + seq![a];
    lemma_unlines_add(x, y);
    assert(m.build_lines(version, tokens) =~= x + y);
    assert(m.build_section(version, tokens) =~= unlines(x) + unlines(y));
}

proof fn lemma_tables_are_their_lines(m: MetricsView)
    ensures
        m.request_section() == unlines(m.request_table()),
        m.voucher_section() == unlines(m.voucher_table()),
{
    lemma_heading(
        "uvp_requests_total"@,
        "Requests by token, action and outcome."@,
        "counter"@,
    );
    lemma_unlines_add(
        heading_lines(
            "uvp_requests_total"@,
            "Requests by token, action and outcome."@,
            "counter"@,
        ),
        m.request_rows(),
    );
    lemma_request_lines(m.requests, m.requests.len());
    assert(m.request_rows().take(m.requests.len() as int) =~= m.request_rows());
    lemma_heading(
        "uvp_vouchers_created_total"@,
        "Vouchers issued through the proxy."@,
        "counter"@,
    );
    lemma_unlines_add(
        heading_lines(
            "uvp_vouchers_created_total"@,
            "Vouchers issued through the proxy."@,
            "counter"@,
        ),
        m.voucher_rows(),
    );
    lemma_voucher_lines(m.vouchers_created, m.vouchers_created.len());
    assert(m.voucher_rows().take(m.vouchers_created.len() as int) =~= m.voucher_rows());
}

proof fn lemma_page_is_its_lines(m: MetricsView, version: Seq<char>, tokens: nat)
    ensures
        m.page(version, tokens) == unlines(m.lines(version, tokens)),
{
    lemma_build_is_its_lines(m, version, tokens);
    lemma_tables_are_their_lines(m);
    lemma_upstream_is_its_lines(m);
    lemma_reload_is_its_lines(m);
    let a = m.build_lines(version, tokens);
    let b = m.request_table();
    let c = m.voucher_table();
    let d = m.upstream_lines();
    let e = m.reload_lines();
    lemma_unlines_add(a, b);
    lemma_unlines_add(a + b, c);
    lemma_unlines_add(a + b + c, d);
    lemma_unlines_add(a + b + c + d, e);
}

proof fn lemma_upstream_is_its_lines(m: MetricsView)
    ensures
        m.upstream_section() == unlines(m.upstream_lines()),
{
    let a = metrics::sample_row(
        "uvp_upstream_seconds_total"@,
        metrics::seconds(m.upstream_latency_ms_total as nat),
    );
    let b = metrics::sample_row(
        "uvp_upstream_calls_total"@,
        text::decimal(m.upstream_calls as nat),
    );
    lemma_single(
        "uvp_upstream_seconds_total"@,
        "Time spent waiting on the controller."@,
        "counter"@,
        a,
    );
    lemma_single(
        "uvp_upstream_calls_total"@,
        "Calls made to the controller."@,
        "counter"@,
        b,
    );
    let x = heading_lines(
        "uvp_upstream_seconds_total"@,
        "Time spent waiting on the controller."@,
        "counter"@,
    ) + seq![a];
    let y = heading_lines(
        "uvp_upstream_calls_total"@,
        "Calls made to the controller."@,
        "counter"@,
    ) + seq![b];
    lemma_unlines_add(x, y);
    assert(m.upstream_lines() =~= x + y);
    assert(m.upstream_section() =~= unlines(x) + unlines(y));
}

proof fn lemma_reload_is_its_lines(m: MetricsView)
    ensures
        m.reload_section() == unlines(m.reload_lines()),
{
    let a = metrics::sample_row("uvp_config_reloads_total"@, text::decimal(m.reloads as nat));
    let b = metrics::sample_row(
        "uvp_config_reload_failures_total"@,
        text::decimal(m.reload_failures as nat),
    );
    lemma_single(
        "uvp_config_reloads_total"@,
        "Successful SIGHUP reloads."@,
        "counter"@,
        a,
    );
    lemma_single(
        "uvp_config_reload_failures_total"@,
        "Reloads rejected for a bad config."@,
        "counter"@,
        b,
    );
    let x = heading_lines(
        "uvp_config_reloads_total"@,
        "Successful SIGHUP reloads."@,
        "counter"@,
    ) + seq![a];
    let y = heading_lines(
        "uvp_config_reload_failures_total"@,
        "Reloads rejected for a bad config."@,
        "counter"@,
    ) + seq![b];
    lemma_unlines_add(x, y);
    assert(m.reload_lines() =~= x + y);
    assert(m.reload_section() =~= unlines(x) + unlines(y));
}

// ---------------------------------------------------------------------------
// Every line is in order
// ---------------------------------------------------------------------------

/// Whether a line is in order: one line, and a comment or a sample.
pub open spec fn in_order(line: Seq<char>) -> bool {
    unbroken(line) && (is_comment(line) || is_sample(line))
}

/// Whether every one of some lines is.
pub open spec fn all_in_order(lines: Seq<Seq<char>>) -> bool {
    forall|i: int| 0 <= i < lines.len() ==> in_order(#[trigger] lines[i])
}

broadcast proof fn lemma_all_in_order_add(a: Seq<Seq<char>>, b: Seq<Seq<char>>)
    requires
        all_in_order(a),
        all_in_order(b),
    ensures
        #[trigger] all_in_order(a + b),
{
    assert forall|i: int| 0 <= i < (a + b).len() implies in_order(#[trigger] (a + b)[i]) by {
        if i < a.len() {
            assert((a + b)[i] == a[i]);
        } else {
            assert((a + b)[i] == b[i - a.len()]);
        }
    }
}

proof fn lemma_heading_in_order(name: Seq<char>, help: Seq<char>, kind: Seq<char>)
    requires
        unbroken(name),
        unbroken(help),
        unbroken(kind),
    ensures
        all_in_order(heading_lines(name, help, kind)),
{
    broadcast use lemma_unbroken_add;

    reveal_strlit("# HELP ");
    reveal_strlit("# TYPE ");
    reveal_strlit(" ");
    let a = "# HELP "@ + name + " "@ + help;
    let b = "# TYPE "@ + name + " "@ + kind;
    assert(unbroken("# HELP "@) && unbroken("# TYPE "@) && unbroken(" "@));
    assert(unbroken("# HELP "@ + name));
    assert(unbroken("# HELP "@ + name + " "@));
    assert(unbroken("# TYPE "@ + name));
    assert(unbroken("# TYPE "@ + name + " "@));
    assert(a.subrange(0, 7) =~= "# HELP "@);
    assert(b.subrange(0, 7) =~= "# TYPE "@);
    assert(is_comment(a) && is_comment(b));
}

proof fn lemma_sample_in_order(name: Seq<char>, value: Seq<char>)
    requires
        unbroken(name),
        name.len() > 0,
        name[0] != '#',
        is_number(value),
        unbroken(value),
    ensures
        in_order(metrics::sample_row(name, value)),
        all_in_order(seq![metrics::sample_row(name, value)]),
{
    reveal_strlit(" ");
    assert(unbroken(" "@));
    lemma_unbroken_add(name, " "@);
    lemma_unbroken_add(name + " "@, value);
}

proof fn lemma_request_row_in_order(e: EntryView)
    ensures
        in_order(metrics::request_row(e)),
{
    broadcast use lemma_unbroken_add;

    reveal_strlit("uvp_requests_total{token=\"");
    reveal_strlit("\",action=\"");
    reveal_strlit("\",outcome=\"");
    reveal_strlit("\"} ");
    reveal_strlit("\"}");
    reveal_strlit(" ");
    lemma_escaped_is_unbroken(e.labels[0]);
    lemma_escaped_is_unbroken(e.labels[1]);
    lemma_escaped_is_unbroken(e.labels[2]);
    lemma_decimal_is_digits(e.count as nat);
    let a = "uvp_requests_total{token=\""@ + metrics::escaped(e.labels[0]);
    let b = a + "\",action=\""@ + metrics::escaped(e.labels[1]);
    let c = b + "\",outcome=\""@ + metrics::escaped(e.labels[2]);
    let name = c + "\"}"@;
    assert(unbroken(a));
    assert(unbroken(a + "\",action=\""@));
    assert(unbroken(b));
    assert(unbroken(b + "\",outcome=\""@));
    assert(unbroken(c));
    assert(unbroken(name));
    assert(name[0] == 'u');
    lemma_sample_in_order(name, text::decimal(e.count as nat));
    assert(metrics::request_row(e) =~= metrics::sample_row(name, text::decimal(e.count as nat)));
}

proof fn lemma_voucher_row_in_order(e: EntryView)
    ensures
        in_order(metrics::voucher_row(e)),
{
    broadcast use lemma_unbroken_add;

    reveal_strlit("uvp_vouchers_created_total{token=\"");
    reveal_strlit("\"} ");
    reveal_strlit("\"}");
    reveal_strlit(" ");
    lemma_escaped_is_unbroken(e.labels[0]);
    lemma_decimal_is_digits(e.count as nat);
    let a = "uvp_vouchers_created_total{token=\""@ + metrics::escaped(e.labels[0]);
    let name = a + "\"}"@;
    assert(unbroken(a));
    assert(unbroken(name));
    assert(name[0] == 'u');
    lemma_sample_in_order(name, text::decimal(e.count as nat));
    assert(metrics::voucher_row(e) =~= metrics::sample_row(name, text::decimal(e.count as nat)));
}

proof fn lemma_build_lines_in_order(m: MetricsView, version: Seq<char>, tokens: nat)
    requires
        unbroken(version),
    ensures
        all_in_order(m.build_lines(version, tokens)),
{
    broadcast use {lemma_unbroken_add, lemma_all_in_order_add};

    reveal_strlit("uvp_build_info");
    reveal_strlit("Version of the running proxy.");
    reveal_strlit("gauge");
    reveal_strlit("uvp_tokens_configured");
    reveal_strlit("Number of client tokens in the active config.");
    lemma_heading_in_order("uvp_build_info"@, "Version of the running proxy."@, "gauge"@);
    lemma_heading_in_order(
        "uvp_tokens_configured"@,
        "Number of client tokens in the active config."@,
        "gauge"@,
    );
    lemma_decimal_is_digits(tokens);
    lemma_sample_in_order("uvp_tokens_configured"@, text::decimal(tokens));
    reveal_strlit("uvp_build_info{version=\"");
    reveal_strlit("\"} 1");
    reveal_strlit("\"}");
    reveal_strlit("1");
    reveal_strlit(" ");
    let name = "uvp_build_info{version=\""@ + version + "\"}"@;
    assert(unbroken("uvp_build_info{version=\""@ + version));
    assert(unbroken(name));
    assert(name[0] == 'u');
    assert(text::all_digits("1"@));
    lemma_sample_in_order(name, "1"@);
    assert(build_row(version) =~= metrics::sample_row(name, "1"@));
}

proof fn lemma_upstream_lines_in_order(m: MetricsView)
    ensures
        all_in_order(m.upstream_lines()),
{
    broadcast use lemma_all_in_order_add;

    reveal_strlit("counter");
    reveal_strlit("uvp_upstream_seconds_total");
    reveal_strlit("Time spent waiting on the controller.");
    reveal_strlit("uvp_upstream_calls_total");
    reveal_strlit("Calls made to the controller.");
    lemma_heading_in_order(
        "uvp_upstream_seconds_total"@,
        "Time spent waiting on the controller."@,
        "counter"@,
    );
    lemma_heading_in_order(
        "uvp_upstream_calls_total"@,
        "Calls made to the controller."@,
        "counter"@,
    );
    lemma_seconds_are_a_number(m.upstream_latency_ms_total as nat);
    lemma_decimal_is_digits(m.upstream_calls as nat);
    lemma_sample_in_order(
        "uvp_upstream_seconds_total"@,
        metrics::seconds(m.upstream_latency_ms_total as nat),
    );
    lemma_sample_in_order("uvp_upstream_calls_total"@, text::decimal(m.upstream_calls as nat));
}

proof fn lemma_reload_lines_in_order(m: MetricsView)
    ensures
        all_in_order(m.reload_lines()),
{
    broadcast use lemma_all_in_order_add;

    reveal_strlit("counter");
    reveal_strlit("uvp_config_reloads_total");
    reveal_strlit("Successful SIGHUP reloads.");
    reveal_strlit("uvp_config_reload_failures_total");
    reveal_strlit("Reloads rejected for a bad config.");
    lemma_heading_in_order(
        "uvp_config_reloads_total"@,
        "Successful SIGHUP reloads."@,
        "counter"@,
    );
    lemma_heading_in_order(
        "uvp_config_reload_failures_total"@,
        "Reloads rejected for a bad config."@,
        "counter"@,
    );
    lemma_decimal_is_digits(m.reloads as nat);
    lemma_decimal_is_digits(m.reload_failures as nat);
    lemma_sample_in_order("uvp_config_reloads_total"@, text::decimal(m.reloads as nat));
    lemma_sample_in_order(
        "uvp_config_reload_failures_total"@,
        text::decimal(m.reload_failures as nat),
    );
}

proof fn lemma_lines_in_order(m: MetricsView, version: Seq<char>, tokens: nat)
    requires
        unbroken(version),
    ensures
        all_in_order(m.lines(version, tokens)),
{
    broadcast use lemma_all_in_order_add;

    lemma_build_lines_in_order(m, version, tokens);
    lemma_upstream_lines_in_order(m);
    lemma_reload_lines_in_order(m);
    reveal_strlit("counter");
    reveal_strlit("uvp_requests_total");
    reveal_strlit("Requests by token, action and outcome.");
    reveal_strlit("uvp_vouchers_created_total");
    reveal_strlit("Vouchers issued through the proxy.");
    lemma_heading_in_order(
        "uvp_requests_total"@,
        "Requests by token, action and outcome."@,
        "counter"@,
    );
    lemma_heading_in_order(
        "uvp_vouchers_created_total"@,
        "Vouchers issued through the proxy."@,
        "counter"@,
    );
    assert forall|i: int| 0 <= i < m.request_rows().len() implies in_order(
        #[trigger] m.request_rows()[i],
    ) by {
        lemma_request_row_in_order(m.requests[i]);
    }
    assert forall|i: int| 0 <= i < m.voucher_rows().len() implies in_order(
        #[trigger] m.voucher_rows()[i],
    ) by {
        lemma_voucher_row_in_order(m.vouchers_created[i]);
    }
}

/// The page is valid exposition text, whatever the labels are: it ends with a line
/// end, and every line of it is a `HELP` or a `TYPE` comment, or something else
/// than a comment that ends in a space and a number.
pub proof fn every_line_is_a_comment_or_a_sample(
    m: MetricsView,
    version: Seq<char>,
    tokens: nat,
)
    requires
        !version.contains('\n'),
    ensures
        text::pieces(m.page(version, tokens), '\n') == m.lines(version, tokens).push(seq![]),
        m.page(version, tokens).last() == '\n',
        forall|i: int|
            0 <= i < m.lines(version, tokens).len() ==> {
                let line = #[trigger] m.lines(version, tokens)[i];
                is_comment(line) || is_sample(line)
            },
{
    assert(unbroken(version)) by {
        assert forall|i: int| 0 <= i < version.len() implies #[trigger] version[i] != '\n' by {
            assert(version.contains(version[i]));
        }
    }
    let lines = m.lines(version, tokens);
    lemma_lines_in_order(m, version, tokens);
    lemma_page_is_its_lines(m, version, tokens);
    lemma_lines_are_pieces(lines);
    reveal_strlit("\n");
    assert(m.reload_lines().len() == 6);
    assert(lines.len() > 0);
    assert(unlines(lines).last() == '\n');
}

// ---------------------------------------------------------------------------
// What was recorded
// ---------------------------------------------------------------------------

/// One thing that the metrics were told.
pub ghost enum MetricEvent {
    Request { token: Seq<char>, action: Seq<char>, outcome: Seq<char> },
    Vouchers { token: Seq<char>, count: u32 },
    Upstream { elapsed_ms: u64 },
    Reload { ok: bool },
}

impl MetricsView {
    /// Whether `after` is these metrics once they were told something.
    pub open spec fn records(self, event: MetricEvent, after: MetricsView) -> bool {
        match event {
            MetricEvent::Request { token, action, outcome } => self.counts_request(
                after,
                token,
                action,
                outcome,
            ),
            MetricEvent::Vouchers { token, count } => self.counts_vouchers(after, token, count),
            MetricEvent::Upstream { elapsed_ms } => after == self.with_upstream(elapsed_ms),
            MetricEvent::Reload { ok } => after == self.with_reload(ok),
        }
    }
}

/// Whether `states` are what metrics went through, as they were told `events` one
/// after the other.
pub open spec fn is_run(events: Seq<MetricEvent>, states: Seq<MetricsView>) -> bool {
    &&& states.len() == events.len() + 1
    &&& forall|i: int|
        0 <= i < events.len() ==> states[i].records(#[trigger] events[i], states[i + 1])
}

/// Whether `states` are what metrics that had counted nothing went through, as they
/// were told `events` one after the other.
pub open spec fn is_history(events: Seq<MetricEvent>, states: Seq<MetricsView>) -> bool {
    is_run(events, states) && states[0] == MetricsView::blank()
}

proof fn lemma_run_before(events: Seq<MetricEvent>, states: Seq<MetricsView>)
    requires
        is_run(events, states),
        events.len() > 0,
    ensures
        is_run(events.drop_last(), states.drop_last()),
        states.drop_last()[0] == states[0],
        states.drop_last().last().records(events.last(), states.last()),
{
    let front = events.drop_last();
    let had = states.drop_last();
    assert forall|i: int| 0 <= i < front.len() implies had[i].records(
        #[trigger] front[i],
        had[i + 1],
    ) by {
        assert(front[i] == events[i]);
    }
    assert(states[events.len() - 1].records(events[events.len() - 1], states[events.len() as int]));
}

/// How many requests were recorded under some labels.
pub open spec fn times_requested(events: Seq<MetricEvent>, key: Seq<Seq<char>>) -> nat
    decreases events.len(),
{
    if events.len() == 0 {
        0
    } else {
        times_requested(events.drop_last(), key) + match events.last() {
            MetricEvent::Request { token, action, outcome } => if key == seq![
                token,
                action,
                outcome,
            ] {
                1nat
            } else {
                0
            },
            _ => 0,
        }
    }
}

/// How often vouchers were recorded under a token.
pub open spec fn times_issued(events: Seq<MetricEvent>, key: Seq<Seq<char>>) -> nat
    decreases events.len(),
{
    if events.len() == 0 {
        0
    } else {
        times_issued(events.drop_last(), key) + match events.last() {
            MetricEvent::Vouchers { token, .. } => if key == seq![token] {
                1nat
            } else {
                0
            },
            _ => 0,
        }
    }
}

/// How many vouchers were recorded under a token.
pub open spec fn vouchers_issued(events: Seq<MetricEvent>, key: Seq<Seq<char>>) -> nat
    decreases events.len(),
{
    if events.len() == 0 {
        0
    } else {
        vouchers_issued(events.drop_last(), key) + match events.last() {
            MetricEvent::Vouchers { token, count } => if key == seq![token] {
                count as nat
            } else {
                0
            },
            _ => 0,
        }
    }
}

/// How many calls to the controller were recorded.
pub open spec fn calls_made(events: Seq<MetricEvent>) -> nat
    decreases events.len(),
{
    if events.len() == 0 {
        0
    } else {
        calls_made(events.drop_last()) + match events.last() {
            MetricEvent::Upstream { .. } => 1nat,
            _ => 0,
        }
    }
}

/// How many milliseconds they took together.
pub open spec fn time_waited(events: Seq<MetricEvent>) -> nat
    decreases events.len(),
{
    if events.len() == 0 {
        0
    } else {
        time_waited(events.drop_last()) + match events.last() {
            MetricEvent::Upstream { elapsed_ms } => elapsed_ms as nat,
            _ => 0,
        }
    }
}

/// How many times the configuration was re-read with success, or without.
pub open spec fn times_reloaded(events: Seq<MetricEvent>, success: bool) -> nat
    decreases events.len(),
{
    if events.len() == 0 {
        0
    } else {
        times_reloaded(events.drop_last(), success) + match events.last() {
            MetricEvent::Reload { ok } => if ok == success {
                1nat
            } else {
                0
            },
            _ => 0,
        }
    }
}

/// A number as a counter holds it.
spec fn wrapped(n: nat) -> nat {
    n % 0x1_0000_0000_0000_0000
}

proof fn lemma_wrapped_once(n: u64)
    ensures
        wrapped(n as nat) == n,
{
}

/// Whether the request table says how many requests were recorded under some
/// labels, on top of what it said before.
spec fn request_told(
    before: MetricsView,
    events: Seq<MetricEvent>,
    m: MetricsView,
    key: Seq<Seq<char>>,
) -> bool {
    &&& tally::counted(m.requests, key) == (tally::counted(before.requests, key) || times_requested(
        events,
        key,
    ) > 0)
    &&& tally::count_of(m.requests, key) == wrapped(
        tally::count_of(before.requests, key) as nat + times_requested(events, key),
    )
}

/// Whether it says so of all labels.
spec fn requests_tell(before: MetricsView, events: Seq<MetricEvent>, m: MetricsView) -> bool {
    &&& tally::ascending(m.requests)
    &&& metrics::labelled(m.requests, 3)
    &&& forall|key: Seq<Seq<char>>| #[trigger] request_told(before, events, m, key)
}

proof fn lemma_requests_tell(events: Seq<MetricEvent>, states: Seq<MetricsView>)
    requires
        is_run(events, states),
        states[0].well_formed(),
    ensures
        requests_tell(states[0], events, states.last()),
    decreases events.len(),
{
    let m = states.last();
    let first = states[0];
    if events.len() > 0 {
        let front = events.drop_last();
        let before = states.drop_last().last();
        lemma_run_before(events, states);
        lemma_requests_tell(front, states.drop_last());
        if let MetricEvent::Request { token, action, outcome } = events.last() {
            let key = seq![token, action, outcome];
            metrics::lemma_still_labelled(before.requests, m.requests, key, 3);
            assert forall|k: Seq<Seq<char>>| #[trigger] request_told(first, events, m, k) by {
                assert(request_told(first, front, before, k));
                if k != key {
                    assert(tally::count_of(m.requests, k) == tally::count_of(before.requests, k));
                }
            }
        } else {
            assert(m.requests == before.requests);
            assert forall|k: Seq<Seq<char>>| #[trigger] request_told(first, events, m, k) by {
                assert(request_told(first, front, before, k));
            }
        }
    } else {
        assert(m == first);
        assert forall|k: Seq<Seq<char>>| #[trigger] request_told(first, events, m, k) by {
            lemma_wrapped_once(tally::count_of(first.requests, k));
        }
    }
}

/// Whether the voucher table says how many vouchers were recorded under a token,
/// on top of what it said before.
spec fn voucher_told(
    before: MetricsView,
    events: Seq<MetricEvent>,
    m: MetricsView,
    key: Seq<Seq<char>>,
) -> bool {
    &&& tally::counted(m.vouchers_created, key) == (tally::counted(before.vouchers_created, key) || times_issued(
        events,
        key,
    ) > 0)
    &&& tally::count_of(m.vouchers_created, key) == wrapped(
        tally::count_of(before.vouchers_created, key) as nat + vouchers_issued(events, key),
    )
}

/// Whether it says so of all tokens.
spec fn vouchers_tell(before: MetricsView, events: Seq<MetricEvent>, m: MetricsView) -> bool {
    &&& tally::ascending(m.vouchers_created)
    &&& metrics::labelled(m.vouchers_created, 1)
    &&& forall|key: Seq<Seq<char>>| #[trigger] voucher_told(before, events, m, key)
}

proof fn lemma_vouchers_tell(events: Seq<MetricEvent>, states: Seq<MetricsView>)
    requires
        is_run(events, states),
        states[0].well_formed(),
    ensures
        vouchers_tell(states[0], events, states.last()),
    decreases events.len(),
{
    let m = states.last();
    let first = states[0];
    if events.len() > 0 {
        let front = events.drop_last();
        let before = states.drop_last().last();
        lemma_run_before(events, states);
        lemma_vouchers_tell(front, states.drop_last());
        if let MetricEvent::Vouchers { token, count } = events.last() {
            let key = seq![token];
            metrics::lemma_still_labelled(before.vouchers_created, m.vouchers_created, key, 1);
            assert forall|k: Seq<Seq<char>>| #[trigger] voucher_told(first, events, m, k) by {
                assert(voucher_told(first, front, before, k));
                if k != key {
                    assert(tally::count_of(m.vouchers_created, k) == tally::count_of(before.vouchers_created, k));
                }
            }
        } else {
            assert(m.vouchers_created == before.vouchers_created);
            assert forall|k: Seq<Seq<char>>| #[trigger] voucher_told(first, events, m, k) by {
                assert(voucher_told(first, front, before, k));
            }
        }
    } else {
        assert(m == first);
        assert forall|k: Seq<Seq<char>>| #[trigger] voucher_told(first, events, m, k) by {
            lemma_wrapped_once(tally::count_of(first.vouchers_created, k));
        }
    }
}

// ---------------------------------------------------------------------------
// How the page tells it
// ---------------------------------------------------------------------------

/// The lines of a text that start with `start`.
pub open spec fn lines_starting(page: Seq<char>, start: Seq<char>) -> Seq<Seq<char>> {
    text::pieces(page, '\n').filter(|line: Seq<char>| start.is_prefix_of(line))
}

/// Whether none of some lines starts with `start`.
spec fn none_starts(lines: Seq<Seq<char>>, start: Seq<char>) -> bool {
    forall|i: int| 0 <= i < lines.len() ==> !start.is_prefix_of(#[trigger] lines[i])
}

broadcast proof fn lemma_none_starts_add(a: Seq<Seq<char>>, b: Seq<Seq<char>>, start: Seq<char>)
    requires
        none_starts(a, start),
        none_starts(b, start),
    ensures
        #[trigger] none_starts(a + b, start),
{
    assert forall|i: int| 0 <= i < (a + b).len() implies !start.is_prefix_of(
        #[trigger] (a + b)[i],
    ) by {
        if i < a.len() {
            assert((a + b)[i] == a[i]);
        } else {
            assert((a + b)[i] == b[i - a.len()]);
        }
    }
}

proof fn lemma_no_prefix(start: Seq<char>, line: Seq<char>, k: int)
    requires
        0 <= k < start.len(),
        k < line.len(),
        line[k] != start[k],
    ensures
        !start.is_prefix_of(line),
        none_starts(seq![line], start),
{
    if start.is_prefix_of(line) {
        assert(line.subrange(0, start.len() as int)[k] == line[k]);
    }
}

proof fn lemma_filter_nothing(lines: Seq<Seq<char>>, start: Seq<char>)
    requires
        none_starts(lines, start),
    ensures
        lines.filter(|line: Seq<char>| start.is_prefix_of(line)) == Seq::<Seq<char>>::empty(),
    decreases lines.len(),
{
    reveal(Seq::filter);
    if lines.len() > 0 {
        let front = lines.drop_last();
        assert forall|i: int| 0 <= i < front.len() implies !start.is_prefix_of(
            #[trigger] front[i],
        ) by {
            assert(front[i] == lines[i]);
        }
        lemma_filter_nothing(front, start);
        assert(!start.is_prefix_of(lines[lines.len() - 1]));
    }
}

proof fn lemma_filter_everything(lines: Seq<Seq<char>>, start: Seq<char>)
    requires
        forall|i: int| 0 <= i < lines.len() ==> start.is_prefix_of(#[trigger] lines[i]),
    ensures
        lines.filter(|line: Seq<char>| start.is_prefix_of(line)) == lines,
    decreases lines.len(),
{
    reveal(Seq::filter);
    if lines.len() > 0 {
        let front = lines.drop_last();
        assert forall|i: int| 0 <= i < front.len() implies start.is_prefix_of(
            #[trigger] front[i],
        ) by {
            assert(front[i] == lines[i]);
        }
        lemma_filter_everything(front, start);
        assert(start.is_prefix_of(lines[lines.len() - 1]));
        assert(front.push(lines.last()) =~= lines);
    }
}

proof fn lemma_heading_starts_otherwise(
    name: Seq<char>,
    help: Seq<char>,
    kind: Seq<char>,
    start: Seq<char>,
)
    requires
        start.len() > 0,
        start[0] != '#',
    ensures
        none_starts(heading_lines(name, help, kind), start),
{
    reveal_strlit("# HELP ");
    reveal_strlit("# TYPE ");
    let a = "# HELP "@ + name + " "@ + help;
    let b = "# TYPE "@ + name + " "@ + kind;
    lemma_no_prefix(start, a, 0);
    lemma_no_prefix(start, b, 0);
}

/// The lines around the two tables start with neither of their names.
proof fn lemma_other_lines_start_otherwise(
    m: MetricsView,
    version: Seq<char>,
    tokens: nat,
    start: Seq<char>,
)
    requires
        start.len() > 4,
        start[0] == 'u',
        start[4] == 'r' || start[4] == 'v',
    ensures
        none_starts(m.build_lines(version, tokens), start),
        none_starts(m.upstream_lines(), start),
        none_starts(m.reload_lines(), start),
{
    broadcast use lemma_none_starts_add;

    reveal_strlit("uvp_build_info{version=\"");
    reveal_strlit("uvp_tokens_configured");
    reveal_strlit("uvp_upstream_seconds_total");
    reveal_strlit("uvp_upstream_calls_total");
    reveal_strlit("uvp_config_reloads_total");
    reveal_strlit("uvp_config_reload_failures_total");
    lemma_heading_starts_otherwise(
        "uvp_build_info"@,
        "Version of the running proxy."@,
        "gauge"@,
        start,
    );
    lemma_heading_starts_otherwise(
        "uvp_tokens_configured"@,
        "Number of client tokens in the active config."@,
        "gauge"@,
        start,
    );
    lemma_heading_starts_otherwise(
        "uvp_upstream_seconds_total"@,
        "Time spent waiting on the controller."@,
        "counter"@,
        start,
    );
    lemma_heading_starts_otherwise(
        "uvp_upstream_calls_total"@,
        "Calls made to the controller."@,
        "counter"@,
        start,
    );
    lemma_heading_starts_otherwise(
        "uvp_config_reloads_total"@,
        "Successful SIGHUP reloads."@,
        "counter"@,
        start,
    );
    lemma_heading_starts_otherwise(
        "uvp_config_reload_failures_total"@,
        "Reloads rejected for a bad config."@,
        "counter"@,
        start,
    );
    lemma_no_prefix(start, build_row(version), 4);
    lemma_no_prefix(
        start,
        metrics::sample_row("uvp_tokens_configured"@, text::decimal(tokens)),
        4,
    );
    lemma_no_prefix(
        start,
        metrics::sample_row(
            "uvp_upstream_seconds_total"@,
            metrics::seconds(m.upstream_latency_ms_total as nat),
        ),
        4,
    );
    lemma_no_prefix(
        start,
        metrics::sample_row(
            "uvp_upstream_calls_total"@,
            text::decimal(m.upstream_calls as nat),
        ),
        4,
    );
    lemma_no_prefix(
        start,
        metrics::sample_row("uvp_config_reloads_total"@, text::decimal(m.reloads as nat)),
        4,
    );
    lemma_no_prefix(
        start,
        metrics::sample_row(
            "uvp_config_reload_failures_total"@,
            text::decimal(m.reload_failures as nat),
        ),
        4,
    );
}

proof fn lemma_rows_start(m: MetricsView)
    ensures
        forall|i: int|
            0 <= i < m.request_rows().len() ==> "uvp_requests_total{"@.is_prefix_of(
                #[trigger] m.request_rows()[i],
            ),
        none_starts(m.request_rows(), "uvp_vouchers_created_total{"@),
        forall|i: int|
            0 <= i < m.voucher_rows().len() ==> "uvp_vouchers_created_total{"@.is_prefix_of(
                #[trigger] m.voucher_rows()[i],
            ),
        none_starts(m.voucher_rows(), "uvp_requests_total{"@),
{
    reveal_strlit("uvp_requests_total{");
    reveal_strlit("uvp_requests_total{token=\"");
    reveal_strlit("uvp_vouchers_created_total{");
    reveal_strlit("uvp_vouchers_created_total{token=\"");
    assert forall|i: int| 0 <= i < m.request_rows().len() implies
        "uvp_requests_total{"@.is_prefix_of(#[trigger] m.request_rows()[i])
        && !"uvp_vouchers_created_total{"@.is_prefix_of(m.request_rows()[i]) by {
        let row = metrics::request_row(m.requests[i]);
        assert(m.request_rows()[i] == row);
        assert(row.subrange(0, 19) =~= "uvp_requests_total{"@);
        lemma_no_prefix("uvp_vouchers_created_total{"@, row, 4);
    }
    assert forall|i: int| 0 <= i < m.voucher_rows().len() implies
        "uvp_vouchers_created_total{"@.is_prefix_of(#[trigger] m.voucher_rows()[i])
        && !"uvp_requests_total{"@.is_prefix_of(m.voucher_rows()[i]) by {
        let row = metrics::voucher_row(m.vouchers_created[i]);
        assert(m.voucher_rows()[i] == row);
        assert(row.subrange(0, 27) =~= "uvp_vouchers_created_total{"@);
        lemma_no_prefix("uvp_requests_total{"@, row, 4);
    }
}

/// Filtering the page is filtering its parts.
proof fn lemma_filter_parts(
    b: Seq<Seq<char>>,
    rh: Seq<Seq<char>>,
    rows: Seq<Seq<char>>,
    vh: Seq<Seq<char>>,
    others: Seq<Seq<char>>,
    u: Seq<Seq<char>>,
    e: Seq<Seq<char>>,
    start: Seq<char>,
)
    requires
        start.len() > 0,
        none_starts(b, start),
        none_starts(rh, start),
        none_starts(vh, start),
        none_starts(u, start),
        none_starts(e, start),
    ensures
        ({
            let pred = |line: Seq<char>| start.is_prefix_of(line);
            (b + (rh + rows) + (vh + others) + u + e).push(seq![]).filter(pred) == rows.filter(
                pred,
            ) + others.filter(pred)
        }),
{
    let pred = |line: Seq<char>| start.is_prefix_of(line);
    let none = Seq::<Seq<char>>::empty();
    lemma_filter_nothing(b, start);
    lemma_filter_nothing(rh, start);
    lemma_filter_nothing(vh, start);
    lemma_filter_nothing(u, start);
    lemma_filter_nothing(e, start);
    let x1 = b + (rh + rows);
    let x2 = x1 + (vh + others);
    let x3 = x2 + u;
    let x4 = x3 + e;
    Seq::filter_distributes_over_add(rh, rows, pred);
    Seq::filter_distributes_over_add(b, rh + rows, pred);
    Seq::filter_distributes_over_add(vh, others, pred);
    Seq::filter_distributes_over_add(x1, vh + others, pred);
    Seq::filter_distributes_over_add(x2, u, pred);
    Seq::filter_distributes_over_add(x3, e, pred);
    let blank = Seq::<char>::empty();
    let whole = x4.push(blank);
    assert(whole.drop_last() =~= x4);
    assert(!start.is_prefix_of(blank));
    reveal(Seq::filter);
    assert(whole.filter(pred) == x4.filter(pred));
    let p = rows.filter(pred);
    let q = others.filter(pred);
    assert(none + (none + p) + (none + q) + none + none =~= p + q);
}

#[verifier::rlimit(40)]
proof fn lemma_table_lines(m: MetricsView, version: Seq<char>, tokens: nat)
    requires
        !version.contains('\n'),
    ensures
        lines_starting(m.page(version, tokens), "uvp_requests_total{"@) == m.request_rows(),
        lines_starting(m.page(version, tokens), "uvp_vouchers_created_total{"@)
            == m.voucher_rows(),
{
    reveal_strlit("uvp_requests_total{");
    reveal_strlit("uvp_vouchers_created_total{");
    let r = "uvp_requests_total{"@;
    let v = "uvp_vouchers_created_total{"@;
    every_line_is_a_comment_or_a_sample(m, version, tokens);
    lemma_rows_start(m);
    lemma_other_lines_start_otherwise(m, version, tokens, r);
    lemma_other_lines_start_otherwise(m, version, tokens, v);
    let rh = heading_lines(
        "uvp_requests_total"@,
        "Requests by token, action and outcome."@,
        "counter"@,
    );
    let vh = heading_lines(
        "uvp_vouchers_created_total"@,
        "Vouchers issued through the proxy."@,
        "counter"@,
    );
    lemma_heading_starts_otherwise(
        "uvp_requests_total"@,
        "Requests by token, action and outcome."@,
        "counter"@,
        r,
    );
    lemma_heading_starts_otherwise(
        "uvp_requests_total"@,
        "Requests by token, action and outcome."@,
        "counter"@,
        v,
    );
    lemma_heading_starts_otherwise(
        "uvp_vouchers_created_total"@,
        "Vouchers issued through the proxy."@,
        "counter"@,
        r,
    );
    lemma_heading_starts_otherwise(
        "uvp_vouchers_created_total"@,
        "Vouchers issued through the proxy."@,
        "counter"@,
        v,
    );
    let b = m.build_lines(version, tokens);
    let u = m.upstream_lines();
    let e = m.reload_lines();
    let rows = m.request_rows();
    let others = m.voucher_rows();
    lemma_filter_parts(b, rh, rows, vh, others, u, e, r);
    lemma_filter_parts(b, rh, rows, vh, others, u, e, v);
    lemma_filter_everything(rows, r);
    lemma_filter_nothing(others, r);
    lemma_filter_nothing(rows, v);
    lemma_filter_everything(others, v);
    assert(rows + Seq::<Seq<char>>::empty() =~= rows);
    assert(Seq::<Seq<char>>::empty() + others =~= others);
}

/// The page has one line for each set of labels under which a request was ever
/// recorded and no other, in ascending order of token, action and outcome, and it
/// shows how often that was, where that fits in 64 bits.
pub proof fn request_lines_tell_what_was_recorded(
    events: Seq<MetricEvent>,
    states: Seq<MetricsView>,
    version: Seq<char>,
    tokens: nat,
)
    requires
        is_history(events, states),
        !version.contains('\n'),
    ensures
        ({
            let table = states.last().requests;
            &&& lines_starting(states.last().page(version, tokens), "uvp_requests_total{"@)
                == table.map_values(|e: EntryView| metrics::request_row(e))
            &&& tally::ascending(table)
            &&& forall|i: int|
                0 <= i < table.len() ==> {
                    let e = #[trigger] table[i];
                    &&& e.labels.len() == 3
                    &&& times_requested(events, e.labels) > 0
                    &&& times_requested(events, e.labels) <= u64::MAX ==> e.count
                        == times_requested(events, e.labels)
                }
            &&& forall|key: Seq<Seq<char>>| #[trigger]
                times_requested(events, key) > 0 ==> tally::counted(table, key)
        }),
{
    let m = states.last();
    lemma_requests_tell(events, states);
    lemma_table_lines(m, version, tokens);
    assert forall|i: int| 0 <= i < m.requests.len() implies {
        let e = #[trigger] m.requests[i];
        &&& e.labels.len() == 3
        &&& times_requested(events, e.labels) > 0
        &&& times_requested(events, e.labels) <= u64::MAX ==> e.count == times_requested(
            events,
            e.labels,
        )
    } by {
        tally::lemma_count_at(m.requests, i);
        assert(request_told(states[0], events, m, m.requests[i].labels));
    }
    assert forall|key: Seq<Seq<char>>| #[trigger]
        times_requested(events, key) > 0 implies tally::counted(m.requests, key) by {
        assert(request_told(states[0], events, m, key));
    }
}

/// The page has one line for each token under which vouchers were ever recorded and
/// no other, in ascending order of the tokens, and it shows how many vouchers those
/// were, where that fits in 64 bits.
pub proof fn voucher_lines_tell_what_was_recorded(
    events: Seq<MetricEvent>,
    states: Seq<MetricsView>,
    version: Seq<char>,
    tokens: nat,
)
    requires
        is_history(events, states),
        !version.contains('\n'),
    ensures
        ({
            let table = states.last().vouchers_created;
            &&& lines_starting(
                states.last().page(version, tokens),
                "uvp_vouchers_created_total{"@,
            ) == table.map_values(|e: EntryView| metrics::voucher_row(e))
            &&& tally::ascending(table)
            &&& forall|i: int|
                0 <= i < table.len() ==> {
                    let e = #[trigger] table[i];
                    &&& e.labels.len() == 1
                    &&& times_issued(events, e.labels) > 0
                    &&& vouchers_issued(events, e.labels) <= u64::MAX ==> e.count
                        == vouchers_issued(events, e.labels)
                }
            &&& forall|key: Seq<Seq<char>>| #[trigger]
                times_issued(events, key) > 0 ==> tally::counted(table, key)
        }),
{
    let m = states.last();
    lemma_vouchers_tell(events, states);
    lemma_table_lines(m, version, tokens);
    assert forall|i: int| 0 <= i < m.vouchers_created.len() implies {
        let e = #[trigger] m.vouchers_created[i];
        &&& e.labels.len() == 1
        &&& times_issued(events, e.labels) > 0
        &&& vouchers_issued(events, e.labels) <= u64::MAX ==> e.count == vouchers_issued(
            events,
            e.labels,
        )
    } by {
        tally::lemma_count_at(m.vouchers_created, i);
        assert(voucher_told(states[0], events, m, m.vouchers_created[i].labels));
    }
    assert forall|key: Seq<Seq<char>>| #[trigger]
        times_issued(events, key) > 0 implies tally::counted(m.vouchers_created, key) by {
        assert(voucher_told(states[0], events, m, key));
    }
}

proof fn lemma_counters_tell(events: Seq<MetricEvent>, states: Seq<MetricsView>)
    requires
        is_run(events, states),
    ensures
        states.last().upstream_calls == wrapped(
            states[0].upstream_calls as nat + calls_made(events),
        ),
        states.last().upstream_latency_ms_total == wrapped(
            states[0].upstream_latency_ms_total as nat + time_waited(events),
        ),
        states.last().reloads == wrapped(
            states[0].reloads as nat + times_reloaded(events, true),
        ),
        states.last().reload_failures == wrapped(
            states[0].reload_failures as nat + times_reloaded(events, false),
        ),
    decreases events.len(),
{
    if events.len() > 0 {
        lemma_run_before(events, states);
        lemma_counters_tell(events.drop_last(), states.drop_last());
    }
}

/// Whether two pages differ in two lines alone, three apart, which are `one` and
/// `other` in the first of the pages.
spec fn only_two_differ(
    page: Seq<Seq<char>>,
    another: Seq<Seq<char>>,
    one: Seq<char>,
    other: Seq<char>,
) -> bool {
    &&& page.len() == another.len()
    &&& exists|i: int|
        0 <= i < page.len() - 3 && #[trigger] page[i] == one && page[i + 3] == other && forall|
            j: int,
        |
            0 <= j < page.len() && j != i && j != i + 3 ==> #[trigger] page[j] == another[j]
}

proof fn lemma_two_in_place(
    front: Seq<Seq<char>>,
    u: Seq<Seq<char>>,
    w: Seq<Seq<char>>,
    tail: Seq<Seq<char>>,
)
    requires
        u.len() == 6,
        w.len() == 6,
        u[0] == w[0],
        u[1] == w[1],
        u[3] == w[3],
        u[4] == w[4],
    ensures
        only_two_differ(front + u + tail, front + w + tail, u[2], u[5]),
{
    let page = front + u + tail;
    let another = front + w + tail;
    let i = front.len() as int + 2;
    assert(page[i] == u[2]);
    assert(page[i + 3] == u[5]);
    assert forall|j: int| 0 <= j < page.len() && j != i && j != i + 3 implies #[trigger] page[j]
        == another[j] by {
        if j < front.len() {
            assert(page[j] == front[j] && another[j] == front[j]);
        } else if j < front.len() + 6 {
            let k = j - front.len();
            assert(page[j] == u[k] && another[j] == w[k]);
            assert(k == 0 || k == 1 || k == 3 || k == 4);
        } else {
            let k = j - front.len() - 6;
            assert(page[j] == tail[k] && another[j] == tail[k]);
        }
    }
}

proof fn lemma_push_is_add(x: Seq<Seq<char>>, e: Seq<Seq<char>>, line: Seq<char>)
    ensures
        (x + e).push(line) == x + e.push(line),
{
    assert((x + e).push(line) =~= x + e.push(line));
}

/// However many calls to the controller were recorded, the page shows their number
/// and the exact sum of the time they took, in seconds with three places: no
/// millisecond is lost in between. No other line depends on them.
pub proof fn upstream_lines_tell_what_was_recorded(
    events: Seq<MetricEvent>,
    states: Seq<MetricsView>,
    other: MetricsView,
    version: Seq<char>,
    tokens: nat,
)
    requires
        is_history(events, states),
        calls_made(events) <= u64::MAX,
        time_waited(events) <= u64::MAX,
        !version.contains('\n'),
        other == (MetricsView {
            upstream_calls: other.upstream_calls,
            upstream_latency_ms_total: other.upstream_latency_ms_total,
            ..states.last()
        }),
    ensures
        ({
            let m = states.last();
            let page = text::pieces(m.page(version, tokens), '\n');
            let calls = metrics::sample_row(
                "uvp_upstream_calls_total"@,
                text::decimal(calls_made(events)),
            );
            let waited = metrics::sample_row(
                "uvp_upstream_seconds_total"@,
                metrics::seconds(time_waited(events)),
            );
            let another = text::pieces(other.page(version, tokens), '\n');
            &&& page.len() == another.len()
            &&& exists|i: int|
                0 <= i < page.len() - 3 && #[trigger] page[i] == waited && page[i + 3] == calls
                    && forall|j: int|
                    0 <= j < page.len() && j != i && j != i + 3 ==> #[trigger] page[j]
                        == another[j]
        }),
{
    let m = states.last();
    lemma_upstream_counted(events, states);
    lemma_upstream_lines_differ(m, other, version, tokens);
}

proof fn lemma_upstream_counted(events: Seq<MetricEvent>, states: Seq<MetricsView>)
    requires
        is_history(events, states),
        calls_made(events) <= u64::MAX,
        time_waited(events) <= u64::MAX,
    ensures
        states.last().upstream_calls == calls_made(events),
        states.last().upstream_latency_ms_total == time_waited(events),
{
    lemma_counters_tell(events, states);
}

proof fn lemma_upstream_lines_differ(
    m: MetricsView,
    other: MetricsView,
    version: Seq<char>,
    tokens: nat,
)
    requires
        !version.contains('\n'),
        other == (MetricsView {
            upstream_calls: other.upstream_calls,
            upstream_latency_ms_total: other.upstream_latency_ms_total,
            ..m
        }),
    ensures
        only_two_differ(
            text::pieces(m.page(version, tokens), '\n'),
            text::pieces(other.page(version, tokens), '\n'),
            metrics::sample_row(
                "uvp_upstream_seconds_total"@,
                metrics::seconds(m.upstream_latency_ms_total as nat),
            ),
            metrics::sample_row(
                "uvp_upstream_calls_total"@,
                text::decimal(m.upstream_calls as nat),
            ),
        ),
{
    every_line_is_a_comment_or_a_sample(m, version, tokens);
    every_line_is_a_comment_or_a_sample(other, version, tokens);
    let front = m.build_lines(version, tokens) + m.request_table() + m.voucher_table();
    let blank = Seq::<char>::empty();
    let u = m.upstream_lines();
    let w = other.upstream_lines();
    assert(other.build_lines(version, tokens) == m.build_lines(version, tokens));
    assert(other.request_table() == m.request_table());
    assert(other.voucher_table() == m.voucher_table());
    assert(other.reload_lines() == m.reload_lines());
    lemma_push_is_add(front + u, m.reload_lines(), blank);
    lemma_push_is_add(front + w, m.reload_lines(), blank);
    lemma_two_in_place(front, u, w, m.reload_lines().push(blank));
}

// ---------------------------------------------------------------------------
// What one recording changes
// ---------------------------------------------------------------------------

/// What the line of some labels in the request table starts with.
pub open spec fn request_name(key: Seq<Seq<char>>) -> Seq<char> {
    "uvp_requests_total{token=\""@ + metrics::escaped(key[0]) + "\",action=\""@ + metrics::escaped(
        key[1],
    ) + "\",outcome=\""@ + metrics::escaped(key[2]) + "\"}"@
}

/// What the line of a token in the voucher table starts with.
pub open spec fn voucher_name(key: Seq<Seq<char>>) -> Seq<char> {
    "uvp_vouchers_created_total{token=\""@ + metrics::escaped(key[0]) + "\"}"@
}

/// Whether two pages differ in the one line of `name` alone, whose value was
/// `from` and is `to`.
pub open spec fn line_raised(
    before: Seq<Seq<char>>,
    after: Seq<Seq<char>>,
    name: Seq<char>,
    from: nat,
    to: nat,
) -> bool {
    exists|i: int|
        0 <= i < before.len() && #[trigger] before[i] == metrics::sample_row(
            name,
            text::decimal(from),
        ) && after == before.update(i, metrics::sample_row(name, text::decimal(to))) && forall|
            j: int,
        |
            0 <= j < before.len() && j != i ==> !name.is_prefix_of(#[trigger] before[j])
}

/// Whether two pages differ in the line of `name` alone, which was not there and now
/// has `value`.
pub open spec fn line_added(
    before: Seq<Seq<char>>,
    after: Seq<Seq<char>>,
    name: Seq<char>,
    value: nat,
) -> bool {
    &&& forall|j: int| 0 <= j < before.len() ==> !name.is_prefix_of(#[trigger] before[j])
    &&& exists|i: int|
        0 <= i <= before.len() && after == #[trigger] before.insert(
            i,
            metrics::sample_row(name, text::decimal(value)),
        )
}

/// A label value ends at its closing quote, wherever it is.
proof fn lemma_label_ends(a: Seq<char>, x: Seq<char>, b: Seq<char>, y: Seq<char>)
    requires
        metrics::escaped(a) + x == metrics::escaped(b) + y,
        x.len() > 0,
        x[0] == '"',
        y.len() > 0,
        y[0] == '"',
    ensures
        a == b,
        x == y,
    decreases a.len(),
{
    let p = metrics::escaped(a);
    let q = metrics::escaped(b);
    assert((p + x)[0] == (q + y)[0]);
    if a.len() == 0 && b.len() == 0 {
        assert(a =~= b);
        assert(p + x =~= x);
        assert(q + y =~= y);
    } else if a.len() == 0 {
        assert(q[0] == metrics::escaped_char(b[0])[0]);
        assert(false);
    } else if b.len() == 0 {
        assert(p[0] == metrics::escaped_char(a[0])[0]);
        assert(false);
    } else {
        let c = metrics::escaped_char(a[0]);
        let d = metrics::escaped_char(b[0]);
        assert(p[0] == c[0]);
        assert(q[0] == d[0]);
        if c.len() == 2 && d.len() == 2 {
            assert((p + x)[1] == (q + y)[1]);
            assert(p[1] == c[1]);
            assert(q[1] == d[1]);
        }
        assert(a[0] == b[0]);
        let n = c.len() as int;
        assert((p + x).skip(n) =~= metrics::escaped(a.drop_first()) + x);
        assert((q + y).skip(n) =~= metrics::escaped(b.drop_first()) + y);
        lemma_label_ends(a.drop_first(), x, b.drop_first(), y);
        assert(a =~= seq![a[0]] + a.drop_first());
        assert(b =~= seq![b[0]] + b.drop_first());
    }
}

proof fn lemma_strip(s: Seq<char>, x: Seq<char>, y: Seq<char>)
    requires
        s + x == s + y,
    ensures
        x == y,
{
    assert((s + x).skip(s.len() as int) =~= x);
    assert((s + y).skip(s.len() as int) =~= y);
}

proof fn lemma_nest(
    s: Seq<char>,
    a: Seq<char>,
    t: Seq<char>,
    b: Seq<char>,
    u: Seq<char>,
    c: Seq<char>,
    v: Seq<char>,
    d: Seq<char>,
)
    ensures
        (s + a + t + b + u + c + v) + d == s + (a + (t + (b + (u + (c + (v + d)))))),
{
    assert((u + c + v) + d =~= u + (c + (v + d)));
    assert((t + b + (u + c + v)) + d =~= t + (b + ((u + c + v) + d)));
    assert(s + a + t + b + u + c + v =~= s + a + (t + b + (u + c + v)));
    assert((s + a + (t + b + (u + c + v))) + d =~= s + (a + ((t + b + (u + c + v)) + d)));
}

/// The line of one set of labels does not start with the name of another.
proof fn lemma_request_names_differ(key: Seq<Seq<char>>, e: EntryView)
    requires
        key.len() == 3,
        e.labels.len() == 3,
        key != e.labels,
    ensures
        !request_name(key).is_prefix_of(metrics::request_row(e)),
{
    let name = request_name(key);
    let row = metrics::request_row(e);
    if name.is_prefix_of(row) {
        reveal_strlit("\",action=\"");
        reveal_strlit("\",outcome=\"");
        reveal_strlit("\"}");
        reveal_strlit("\"} ");
        let s0 = "uvp_requests_total{token=\""@;
        let s1 = "\",action=\""@;
        let s2 = "\",outcome=\""@;
        let rest = row.skip(name.len() as int);
        assert(row == name + rest) by {
            assert(row =~= row.subrange(0, name.len() as int) + rest);
        }
        let x2 = "\"}"@ + rest;
        let y2 = "\"} "@ + text::decimal(e.count as nat);
        let x1 = s2 + (metrics::escaped(key[2]) + x2);
        let y1 = s2 + (metrics::escaped(e.labels[2]) + y2);
        let x0 = s1 + (metrics::escaped(key[1]) + x1);
        let y0 = s1 + (metrics::escaped(e.labels[1]) + y1);
        lemma_nest(
            s0,
            metrics::escaped(key[0]),
            s1,
            metrics::escaped(key[1]),
            s2,
            metrics::escaped(key[2]),
            "\"}"@,
            rest,
        );
        lemma_nest(
            s0,
            metrics::escaped(e.labels[0]),
            s1,
            metrics::escaped(e.labels[1]),
            s2,
            metrics::escaped(e.labels[2]),
            "\"} "@,
            text::decimal(e.count as nat),
        );
        lemma_strip(s0, metrics::escaped(key[0]) + x0, metrics::escaped(e.labels[0]) + y0);
        lemma_label_ends(key[0], x0, e.labels[0], y0);
        lemma_strip(s1, metrics::escaped(key[1]) + x1, metrics::escaped(e.labels[1]) + y1);
        lemma_label_ends(key[1], x1, e.labels[1], y1);
        lemma_strip(s2, metrics::escaped(key[2]) + x2, metrics::escaped(e.labels[2]) + y2);
        lemma_label_ends(key[2], x2, e.labels[2], y2);
        assert(key =~= e.labels);
    }
}

/// The line of one token does not start with the name of another.
proof fn lemma_voucher_names_differ(key: Seq<Seq<char>>, e: EntryView)
    requires
        key.len() == 1,
        e.labels.len() == 1,
        key != e.labels,
    ensures
        !voucher_name(key).is_prefix_of(metrics::voucher_row(e)),
{
    let name = voucher_name(key);
    let row = metrics::voucher_row(e);
    if name.is_prefix_of(row) {
        reveal_strlit("\"}");
        reveal_strlit("\"} ");
        let s0 = "uvp_vouchers_created_total{token=\""@;
        let rest = row.skip(name.len() as int);
        assert(row =~= name + rest);
        let x0 = "\"}"@ + rest;
        let y0 = "\"} "@ + text::decimal(e.count as nat);
        assert(name + rest =~= s0 + (metrics::escaped(key[0]) + x0));
        assert(row =~= s0 + (metrics::escaped(e.labels[0]) + y0));
        lemma_strip(s0, metrics::escaped(key[0]) + x0, metrics::escaped(e.labels[0]) + y0);
        lemma_label_ends(key[0], x0, e.labels[0], y0);
        assert(key =~= e.labels);
    }
}

proof fn lemma_row_is_a_sample(e: EntryView)
    ensures
        metrics::request_row(e) == metrics::sample_row(
            request_name(e.labels),
            text::decimal(e.count as nat),
        ),
        metrics::voucher_row(e) == metrics::sample_row(
            voucher_name(e.labels),
            text::decimal(e.count as nat),
        ),
{
    reveal_strlit("\"} ");
    reveal_strlit("\"}");
    reveal_strlit(" ");
    assert("\"} "@ =~= "\"}"@ + " "@);
    assert(metrics::request_row(e) =~= metrics::sample_row(
        request_name(e.labels),
        text::decimal(e.count as nat),
    ));
    assert(metrics::voucher_row(e) =~= metrics::sample_row(
        voucher_name(e.labels),
        text::decimal(e.count as nat),
    ));
}

/// A line that changed among some rows is the one line that changed among all
/// lines.
proof fn lemma_raised_in_place(
    front: Seq<Seq<char>>,
    rows: Seq<Seq<char>>,
    rest: Seq<Seq<char>>,
    i: int,
    name: Seq<char>,
    from: nat,
    to: nat,
)
    requires
        0 <= i < rows.len(),
        rows[i] == metrics::sample_row(name, text::decimal(from)),
        none_starts(front, name),
        none_starts(rest, name),
        forall|j: int| 0 <= j < rows.len() && j != i ==> !name.is_prefix_of(#[trigger] rows[j]),
    ensures
        line_raised(
            front + rows + rest,
            front + rows.update(i, metrics::sample_row(name, text::decimal(to))) + rest,
            name,
            from,
            to,
        ),
{
    let row = metrics::sample_row(name, text::decimal(to));
    let before = front + rows + rest;
    let after = front + rows.update(i, row) + rest;
    let k = front.len() + i;
    assert(before[k] == rows[i]);
    assert(after =~= before.update(k, row));
    assert forall|j: int| 0 <= j < before.len() && j != k implies !name.is_prefix_of(
        #[trigger] before[j],
    ) by {
        if j < front.len() {
            assert(before[j] == front[j]);
        } else if j < front.len() + rows.len() {
            assert(before[j] == rows[j - front.len()]);
        } else {
            assert(before[j] == rest[j - front.len() - rows.len()]);
        }
    }
}

/// A line that came in among some rows is the one line that came in among all
/// lines.
proof fn lemma_added_in_place(
    front: Seq<Seq<char>>,
    rows: Seq<Seq<char>>,
    rest: Seq<Seq<char>>,
    i: int,
    name: Seq<char>,
    value: nat,
)
    requires
        0 <= i <= rows.len(),
        none_starts(front, name),
        none_starts(rows, name),
        none_starts(rest, name),
    ensures
        line_added(
            front + rows + rest,
            front + rows.insert(i, metrics::sample_row(name, text::decimal(value))) + rest,
            name,
            value,
        ),
{
    let row = metrics::sample_row(name, text::decimal(value));
    let before = front + rows + rest;
    let after = front + rows.insert(i, row) + rest;
    lemma_none_starts_add(front, rows, name);
    lemma_none_starts_add(front + rows, rest, name);
    assert(after =~= before.insert(front.len() + i, row));
}

proof fn lemma_page_around_requests(m: MetricsView, version: Seq<char>, tokens: nat)
    requires
        !version.contains('\n'),
    ensures
        text::pieces(m.page(version, tokens), '\n') == requests_front(m, version, tokens)
            + m.request_rows() + requests_rest(m),
{
    every_line_is_a_comment_or_a_sample(m, version, tokens);
    lemma_regroup_first(
        m.build_lines(version, tokens),
        heading_lines(
            "uvp_requests_total"@,
            "Requests by token, action and outcome."@,
            "counter"@,
        ),
        m.request_rows(),
        m.voucher_table(),
        m.upstream_lines(),
        m.reload_lines(),
    );
}

proof fn lemma_page_around_vouchers(m: MetricsView, version: Seq<char>, tokens: nat)
    requires
        !version.contains('\n'),
    ensures
        text::pieces(m.page(version, tokens), '\n') == vouchers_front(m, version, tokens)
            + m.voucher_rows() + vouchers_rest(m),
{
    every_line_is_a_comment_or_a_sample(m, version, tokens);
    lemma_regroup_second(
        m.build_lines(version, tokens),
        m.request_table(),
        heading_lines(
            "uvp_vouchers_created_total"@,
            "Vouchers issued through the proxy."@,
            "counter"@,
        ),
        m.voucher_rows(),
        m.upstream_lines(),
        m.reload_lines(),
    );
}

/// The lines of the page before the request rows.
spec fn requests_front(m: MetricsView, version: Seq<char>, tokens: nat) -> Seq<Seq<char>> {
    m.build_lines(version, tokens) + heading_lines(
        "uvp_requests_total"@,
        "Requests by token, action and outcome."@,
        "counter"@,
    )
}

/// The lines of the page behind the request rows.
spec fn requests_rest(m: MetricsView) -> Seq<Seq<char>> {
    m.voucher_table() + m.upstream_lines() + m.reload_lines() + seq![Seq::<char>::empty()]
}

/// The lines of the page before the voucher rows.
spec fn vouchers_front(m: MetricsView, version: Seq<char>, tokens: nat) -> Seq<Seq<char>> {
    m.build_lines(version, tokens) + m.request_table() + heading_lines(
        "uvp_vouchers_created_total"@,
        "Vouchers issued through the proxy."@,
        "counter"@,
    )
}

/// The lines of the page behind the voucher rows.
spec fn vouchers_rest(m: MetricsView) -> Seq<Seq<char>> {
    m.upstream_lines() + m.reload_lines() + seq![Seq::<char>::empty()]
}

proof fn lemma_regroup_first(
    b: Seq<Seq<char>>,
    h: Seq<Seq<char>>,
    rows: Seq<Seq<char>>,
    v: Seq<Seq<char>>,
    u: Seq<Seq<char>>,
    e: Seq<Seq<char>>,
)
    ensures
        (b + (h + rows) + v + u + e).push(Seq::<char>::empty()) == (b + h) + rows + (v + u + e
            + seq![Seq::<char>::empty()]),
{
    assert((b + (h + rows) + v + u + e).push(Seq::<char>::empty()) =~= (b + h) + rows + (v + u + e
        + seq![Seq::<char>::empty()]));
}

proof fn lemma_regroup_second(
    b: Seq<Seq<char>>,
    r: Seq<Seq<char>>,
    h: Seq<Seq<char>>,
    rows: Seq<Seq<char>>,
    u: Seq<Seq<char>>,
    e: Seq<Seq<char>>,
)
    ensures
        (b + r + (h + rows) + u + e).push(Seq::<char>::empty()) == (b + r + h) + rows + (u + e
            + seq![Seq::<char>::empty()]),
{
    assert((b + r + (h + rows) + u + e).push(Seq::<char>::empty()) =~= (b + r + h) + rows + (u + e
        + seq![Seq::<char>::empty()]));
}

proof fn lemma_around_requests(
    m: MetricsView,
    version: Seq<char>,
    tokens: nat,
    name: Seq<char>,
)
    requires
        name.len() > 4,
        name[0] == 'u',
        name[4] == 'r',
    ensures
        none_starts(requests_front(m, version, tokens), name),
        none_starts(requests_rest(m), name),
{
    broadcast use lemma_none_starts_add;

    lemma_other_lines_start_otherwise(m, version, tokens, name);
    lemma_heading_starts_otherwise(
        "uvp_requests_total"@,
        "Requests by token, action and outcome."@,
        "counter"@,
        name,
    );
    lemma_heading_starts_otherwise(
        "uvp_vouchers_created_total"@,
        "Vouchers issued through the proxy."@,
        "counter"@,
        name,
    );
    reveal_strlit("uvp_vouchers_created_total{token=\"");
    assert(none_starts(m.voucher_rows(), name)) by {
        assert forall|i: int| 0 <= i < m.voucher_rows().len() implies !name.is_prefix_of(
            #[trigger] m.voucher_rows()[i],
        ) by {
            let row = metrics::voucher_row(m.vouchers_created[i]);
            assert(m.voucher_rows()[i] == row);
            lemma_no_prefix(name, row, 4);
        }
    }
    let blank = Seq::<char>::empty();
    assert(none_starts(seq![blank], name));
    assert(none_starts(m.voucher_table(), name));
    assert(none_starts(m.voucher_table() + m.upstream_lines(), name));
    assert(none_starts(m.voucher_table() + m.upstream_lines() + m.reload_lines(), name));
}

proof fn lemma_around_vouchers(
    m: MetricsView,
    version: Seq<char>,
    tokens: nat,
    name: Seq<char>,
)
    requires
        name.len() > 4,
        name[0] == 'u',
        name[4] == 'v',
    ensures
        none_starts(vouchers_front(m, version, tokens), name),
        none_starts(vouchers_rest(m), name),
{
    broadcast use lemma_none_starts_add;

    lemma_other_lines_start_otherwise(m, version, tokens, name);
    lemma_heading_starts_otherwise(
        "uvp_requests_total"@,
        "Requests by token, action and outcome."@,
        "counter"@,
        name,
    );
    lemma_heading_starts_otherwise(
        "uvp_vouchers_created_total"@,
        "Vouchers issued through the proxy."@,
        "counter"@,
        name,
    );
    reveal_strlit("uvp_requests_total{token=\"");
    assert(none_starts(m.request_rows(), name)) by {
        assert forall|i: int| 0 <= i < m.request_rows().len() implies !name.is_prefix_of(
            #[trigger] m.request_rows()[i],
        ) by {
            let row = metrics::request_row(m.requests[i]);
            assert(m.request_rows()[i] == row);
            lemma_no_prefix(name, row, 4);
        }
    }
    let blank = Seq::<char>::empty();
    assert(none_starts(seq![blank], name));
    assert(none_starts(m.request_table(), name));
    assert(none_starts(m.build_lines(version, tokens) + m.request_table(), name));
    assert(none_starts(m.upstream_lines() + m.reload_lines(), name));
}

/// One recorded request changes one line of the page alone, that of its labels:
/// its value is one more, or it comes in with one. This is where the count does not
/// wrap.
pub proof fn one_request_changes_one_line(
    before: MetricsView,
    after: MetricsView,
    token: Seq<char>,
    action: Seq<char>,
    outcome: Seq<char>,
    version: Seq<char>,
    tokens: nat,
)
    requires
        before.well_formed(),
        before.counts_request(after, token, action, outcome),
        tally::count_of(before.requests, seq![token, action, outcome]) < u64::MAX,
        !version.contains('\n'),
    ensures
        ({
            let key = seq![token, action, outcome];
            let count = tally::count_of(before.requests, key) as nat;
            let p = text::pieces(before.page(version, tokens), '\n');
            let q = text::pieces(after.page(version, tokens), '\n');
            if tally::counted(before.requests, key) {
                line_raised(p, q, request_name(key), count, count + 1)
            } else {
                line_added(p, q, request_name(key), 1)
            }
        }),
{
    let key = seq![token, action, outcome];
    let name = request_name(key);
    let count = tally::count_of(before.requests, key);
    let e = EntryView { labels: key, count: tally::count_of(after.requests, key) };
    let rows = before.request_rows();
    reveal_strlit("uvp_requests_total{token=\"");
    assert(name.len() > 4 && name[0] == 'u' && name[4] == 'r');
    lemma_page_around_requests(before, version, tokens);
    lemma_page_around_requests(after, version, tokens);
    lemma_around_requests(before, version, tokens, name);
    let front = requests_front(before, version, tokens);
    let rest = requests_rest(before);
    assert(requests_front(after, version, tokens) == front);
    assert(requests_rest(after) == rest);
    lemma_row_is_a_sample(e);
    assert forall|j: int|
        0 <= j < rows.len() && before.requests[j].labels != key implies !name.is_prefix_of(
        #[trigger] rows[j],
    ) by {
        lemma_request_names_differ(key, before.requests[j]);
    }
    let i = tally::lemma_one_entry_changed(before.requests, after.requests, key);
    if tally::counted(before.requests, key) {
        lemma_row_is_a_sample(before.requests[i]);
        assert forall|j: int| 0 <= j < rows.len() && j != i implies !name.is_prefix_of(
            #[trigger] rows[j],
        ) by {
            tally::lemma_key_less_strict(key);
            if j < i {
                assert(tally::key_less(before.requests[j].labels, before.requests[i].labels));
            } else {
                assert(tally::key_less(before.requests[i].labels, before.requests[j].labels));
            }
        }
        assert(after.request_rows() =~= rows.update(i, metrics::request_row(e)));
        lemma_raised_in_place(front, rows, rest, i, name, count as nat, count as nat + 1);
    } else {
        assert(after.request_rows() =~= rows.insert(i, metrics::request_row(e)));
        assert(count == 0);
        lemma_added_in_place(front, rows, rest, i, name, 1);
    }
}

/// One recorded number of vouchers changes one line of the page alone, that of its
/// token: its value is that much more, or it comes in with that number. This is
/// where the sum does not wrap.
pub proof fn one_issue_changes_one_line(
    before: MetricsView,
    after: MetricsView,
    token: Seq<char>,
    issued: u32,
    version: Seq<char>,
    tokens: nat,
)
    requires
        before.well_formed(),
        before.counts_vouchers(after, token, issued),
        tally::count_of(before.vouchers_created, seq![token]) + issued <= u64::MAX,
        !version.contains('\n'),
    ensures
        ({
            let key = seq![token];
            let count = tally::count_of(before.vouchers_created, key) as nat;
            let p = text::pieces(before.page(version, tokens), '\n');
            let q = text::pieces(after.page(version, tokens), '\n');
            if tally::counted(before.vouchers_created, key) {
                line_raised(p, q, voucher_name(key), count, count + issued as nat)
            } else {
                line_added(p, q, voucher_name(key), issued as nat)
            }
        }),
{
    let key = seq![token];
    let name = voucher_name(key);
    let count = tally::count_of(before.vouchers_created, key);
    let e = EntryView { labels: key, count: tally::count_of(after.vouchers_created, key) };
    let rows = before.voucher_rows();
    reveal_strlit("uvp_vouchers_created_total{token=\"");
    assert(name.len() > 4 && name[0] == 'u' && name[4] == 'v');
    lemma_page_around_vouchers(before, version, tokens);
    lemma_page_around_vouchers(after, version, tokens);
    lemma_around_vouchers(before, version, tokens, name);
    let front = vouchers_front(before, version, tokens);
    let rest = vouchers_rest(before);
    assert(vouchers_front(after, version, tokens) == front);
    assert(vouchers_rest(after) == rest);
    lemma_row_is_a_sample(e);
    assert forall|j: int|
        0 <= j < rows.len() && before.vouchers_created[j].labels != key implies
        !name.is_prefix_of(#[trigger] rows[j]) by {
        lemma_voucher_names_differ(key, before.vouchers_created[j]);
    }
    let table = before.vouchers_created;
    let i = tally::lemma_one_entry_changed(table, after.vouchers_created, key);
    if tally::counted(table, key) {
        lemma_row_is_a_sample(table[i]);
        assert forall|j: int| 0 <= j < rows.len() && j != i implies !name.is_prefix_of(
            #[trigger] rows[j],
        ) by {
            tally::lemma_key_less_strict(key);
            if j < i {
                assert(tally::key_less(table[j].labels, table[i].labels));
            } else {
                assert(tally::key_less(table[i].labels, table[j].labels));
            }
        }
        assert(after.voucher_rows() =~= rows.update(i, metrics::voucher_row(e)));
        lemma_raised_in_place(
            front,
            rows,
            rest,
            i,
            name,
            count as nat,
            count as nat + issued as nat,
        );
    } else {
        assert(after.voucher_rows() =~= rows.insert(i, metrics::voucher_row(e)));
        assert(count == 0);
        lemma_added_in_place(front, rows, rest, i, name, issued as nat);
    }
}

// ---------------------------------------------------------------------------
// The order of recording
// ---------------------------------------------------------------------------

/// What some events come to, where each of them counts for its weight.
spec fn total(events: Seq<MetricEvent>, weight: spec_fn(MetricEvent) -> nat) -> nat {
    events.fold_left(0nat, |sum: nat, e: MetricEvent| sum + weight(e))
}

proof fn lemma_total_in_any_order(
    events: Seq<MetricEvent>,
    others: Seq<MetricEvent>,
    weight: spec_fn(MetricEvent) -> nat,
)
    requires
        events.to_multiset() == others.to_multiset(),
    ensures
        total(events, weight) == total(others, weight),
{
    let f = |sum: nat, e: MetricEvent| sum + weight(e);
    assert(vstd::seq_lib::commutative_foldl(f)) by {
        assert forall|x: MetricEvent, y: MetricEvent, v: nat| #[trigger] f(f(v, x), y) == f(
            f(v, y),
            x,
        ) by {}
    }
    vstd::seq_lib::lemma_fold_left_permutation(events, others, f, 0nat);
}

spec fn request_weight(key: Seq<Seq<char>>) -> spec_fn(MetricEvent) -> nat {
    |e: MetricEvent|
        match e {
            MetricEvent::Request { token, action, outcome } => if key == seq![
                token,
                action,
                outcome,
            ] {
                1nat
            } else {
                0
            },
            _ => 0,
        }
}

spec fn issue_weight(key: Seq<Seq<char>>) -> spec_fn(MetricEvent) -> nat {
    |e: MetricEvent|
        match e {
            MetricEvent::Vouchers { token, .. } => if key == seq![token] {
                1nat
            } else {
                0
            },
            _ => 0,
        }
}

spec fn voucher_weight(key: Seq<Seq<char>>) -> spec_fn(MetricEvent) -> nat {
    |e: MetricEvent|
        match e {
            MetricEvent::Vouchers { token, count } => if key == seq![token] {
                count as nat
            } else {
                0
            },
            _ => 0,
        }
}

spec fn call_weight() -> spec_fn(MetricEvent) -> nat {
    |e: MetricEvent|
        match e {
            MetricEvent::Upstream { .. } => 1nat,
            _ => 0,
        }
}

spec fn time_weight() -> spec_fn(MetricEvent) -> nat {
    |e: MetricEvent|
        match e {
            MetricEvent::Upstream { elapsed_ms } => elapsed_ms as nat,
            _ => 0,
        }
}

spec fn reload_weight(success: bool) -> spec_fn(MetricEvent) -> nat {
    |e: MetricEvent|
        match e {
            MetricEvent::Reload { ok } => if ok == success {
                1nat
            } else {
                0
            },
            _ => 0,
        }
}

proof fn lemma_labels_are_totals(events: Seq<MetricEvent>, key: Seq<Seq<char>>)
    ensures
        times_requested(events, key) == total(events, request_weight(key)),
        times_issued(events, key) == total(events, issue_weight(key)),
        vouchers_issued(events, key) == total(events, voucher_weight(key)),
    decreases events.len(),
{
    if events.len() > 0 {
        lemma_labels_are_totals(events.drop_last(), key);
    }
}

proof fn lemma_counters_are_totals(events: Seq<MetricEvent>)
    ensures
        calls_made(events) == total(events, call_weight()),
        time_waited(events) == total(events, time_weight()),
        times_reloaded(events, true) == total(events, reload_weight(true)),
        times_reloaded(events, false) == total(events, reload_weight(false)),
    decreases events.len(),
{
    if events.len() > 0 {
        lemma_counters_are_totals(events.drop_last());
    }
}

/// In whatever order the same things are recorded, the page comes out the same.
pub proof fn the_order_of_recording_does_not_matter(
    events: Seq<MetricEvent>,
    states: Seq<MetricsView>,
    others: Seq<MetricEvent>,
    other_states: Seq<MetricsView>,
    version: Seq<char>,
    tokens: nat,
)
    requires
        is_run(events, states),
        is_run(others, other_states),
        states[0].well_formed(),
        states[0] == other_states[0],
        events.to_multiset() == others.to_multiset(),
    ensures
        states.last() == other_states.last(),
        states.last().page(version, tokens) == other_states.last().page(version, tokens),
{
    let m = states.last();
    let n = other_states.last();
    lemma_requests_tell(events, states);
    lemma_requests_tell(others, other_states);
    lemma_vouchers_tell(events, states);
    lemma_vouchers_tell(others, other_states);
    lemma_counters_tell(events, states);
    lemma_counters_tell(others, other_states);
    assert forall|key: Seq<Seq<char>>| #[trigger] times_requested(events, key) == times_requested(
        others,
        key,
    ) && times_issued(events, key) == times_issued(others, key) && vouchers_issued(events, key)
        == vouchers_issued(others, key) by {
        lemma_labels_are_totals(events, key);
        lemma_labels_are_totals(others, key);
        lemma_total_in_any_order(events, others, request_weight(key));
        lemma_total_in_any_order(events, others, issue_weight(key));
        lemma_total_in_any_order(events, others, voucher_weight(key));
    }
    lemma_counters_are_totals(events);
    lemma_counters_are_totals(others);
    lemma_total_in_any_order(events, others, call_weight());
    lemma_total_in_any_order(events, others, time_weight());
    lemma_total_in_any_order(events, others, reload_weight(true));
    lemma_total_in_any_order(events, others, reload_weight(false));
    let a = m.requests;
    let b = n.requests;
    assert forall|k: Seq<Seq<char>>| #[trigger] tally::counted(a, k) == tally::counted(b, k) by {
        assert(times_requested(events, k) == times_requested(others, k));
        assert(request_told(states[0], events, m, k) && request_told(states[0], others, n, k));
    }
    assert forall|k: Seq<Seq<char>>| #[trigger] tally::count_of(a, k) == tally::count_of(b, k) by {
        assert(times_requested(events, k) == times_requested(others, k));
        assert(request_told(states[0], events, m, k) && request_told(states[0], others, n, k));
    }
    tally::lemma_same_tally(a, b);
    let c = m.vouchers_created;
    let d = n.vouchers_created;
    assert forall|k: Seq<Seq<char>>| #[trigger] tally::counted(c, k) == tally::counted(d, k) by {
        assert(times_requested(events, k) == times_requested(others, k));
        assert(voucher_told(states[0], events, m, k) && voucher_told(states[0], others, n, k));
    }
    assert forall|k: Seq<Seq<char>>| #[trigger] tally::count_of(c, k) == tally::count_of(d, k) by {
        assert(times_requested(events, k) == times_requested(others, k));
        assert(voucher_told(states[0], events, m, k) && voucher_told(states[0], others, n, k));
    }
    tally::lemma_same_tally(c, d);
}

/// The page tells the version, how many tokens are configured, and how often the
/// configuration was re-read with success and without, each in a line of its own.
pub proof fn the_page_tells_the_other_counters(m: MetricsView, version: Seq<char>, tokens: nat)
    requires
        !version.contains('\n'),
    ensures
        ({
            let page = text::pieces(m.page(version, tokens), '\n');
            &&& page.contains("uvp_build_info{version=\""@ + version + "\"} 1"@)
            &&& page.contains(
                metrics::sample_row("uvp_tokens_configured"@, text::decimal(tokens)),
            )
            &&& page.contains(
                metrics::sample_row("uvp_config_reloads_total"@, text::decimal(m.reloads as nat)),
            )
            &&& page.contains(
                metrics::sample_row(
                    "uvp_config_reload_failures_total"@,
                    text::decimal(m.reload_failures as nat),
                ),
            )
            &&& page.contains(
                metrics::sample_row(
                    "uvp_upstream_calls_total"@,
                    text::decimal(m.upstream_calls as nat),
                ),
            )
            &&& page.contains(
                metrics::sample_row(
                    "uvp_upstream_seconds_total"@,
                    metrics::seconds(m.upstream_latency_ms_total as nat),
                ),
            )
        }),
{
    every_line_is_a_comment_or_a_sample(m, version, tokens);
    let b = m.build_lines(version, tokens);
    let x = b + m.request_table() + m.voucher_table();
    let u = m.upstream_lines();
    let e = m.reload_lines();
    let lines = m.lines(version, tokens);
    let page = lines.push(Seq::<char>::empty());
    assert(b.len() == 6 && u.len() == 6 && e.len() == 6);
    lemma_part_of(b, m.request_table(), m.voucher_table(), u, e, 2);
    lemma_part_of(b, m.request_table(), m.voucher_table(), u, e, 5);
    assert(b[2] == build_row(version));
    assert(b[5] == metrics::sample_row("uvp_tokens_configured"@, text::decimal(tokens)));
    let n = x.len() as int;
    assert(page[n + 2] == u[2]);
    assert(page[n + 5] == u[5]);
    assert(page[n + 8] == e[2]);
    assert(page[n + 11] == e[5]);
}

proof fn lemma_part_of(
    b: Seq<Seq<char>>,
    r: Seq<Seq<char>>,
    v: Seq<Seq<char>>,
    u: Seq<Seq<char>>,
    e: Seq<Seq<char>>,
    i: int,
)
    requires
        0 <= i < b.len(),
    ensures
        (b + r + v + u + e).push(Seq::<char>::empty())[i] == b[i],
        (b + r + v + u + e).push(Seq::<char>::empty()).contains(b[i]),
{
    let whole = (b + r + v + u + e).push(Seq::<char>::empty());
    assert(whole[i] == b[i]);
}

} // verus!
