//! The operational surface: `/metrics` and `/health`.
//!
//! There are two places where market data can be lost: events discarded because no consumer
//! existed, and events dropped for a terminal that fell behind. Silence in either case looks
//! exactly like a quiet market. These are the numbers that say otherwise.

use crate::decimal;
use crate::text;
use vstd::prelude::*;
use vstd::utf8;

verus! {

/// What is counted while the core runs.
#[derive(Clone, Copy, Debug, PartialEq, Eq, Structural)]
pub struct Metrics {
    pub terminals_connected: i64,
    pub terminals_total: u64,
    pub events_broadcast: u64,
    pub events_lagged: u64,
}

/// What is read off elsewhere at the moment of rendering.
#[derive(Clone, Copy, Debug, PartialEq, Eq, Structural)]
pub struct Readings {
    /// Seconds since the core started.
    pub uptime_secs: u64,
    /// Events that connectors produced and no consumer was there to receive.
    pub dropped: u64,
    /// Whether the path from the connectors to the terminals is gone.
    pub sink_closed: bool,
}

impl Metrics {
    pub fn new() -> (m: Metrics)
        ensures
            m == (Metrics {
                terminals_connected: 0,
                terminals_total: 0,
                events_broadcast: 0,
                events_lagged: 0,
            }),
    {
        Metrics {
            terminals_connected: 0,
            terminals_total: 0,
            events_broadcast: 0,
            events_lagged: 0,
        }
    }

    /// One more terminal.
    pub open spec fn with_terminal(self) -> Metrics {
        Metrics {
            terminals_connected: self.terminals_connected.wrapping_add(1),
            terminals_total: self.terminals_total.wrapping_add(1),
            ..self
        }
    }

    /// One terminal less.
    pub open spec fn without_terminal(self) -> Metrics {
        Metrics { terminals_connected: self.terminals_connected.wrapping_sub(1), ..self }
    }

    /// A terminal finished its handshake. [`Metrics::terminal_gone`] has to follow, however the
    /// session ends.
    pub fn terminal_connected(&mut self)
        ensures
            *final(self) == old(self).with_terminal(),
    {
        self.terminals_connected = self.terminals_connected.wrapping_add(1);
        self.terminals_total = self.terminals_total.wrapping_add(1);
    }

    /// A session ended.
    pub fn terminal_gone(&mut self)
        ensures
            *final(self) == old(self).without_terminal(),
    {
        self.terminals_connected = self.terminals_connected.wrapping_sub(1);
    }

    pub fn event_broadcast(&mut self)
        ensures
            *final(self) == (Metrics {
                events_broadcast: old(self).events_broadcast.wrapping_add(1),
                ..*old(self)
            }),
    {
        self.events_broadcast = self.events_broadcast.wrapping_add(1);
    }

    /// A terminal fell behind and the broadcast dropped `count` events for it.
    pub fn events_lagged(&mut self, count: u64)
        ensures
            *final(self) == (Metrics {
                events_lagged: old(self).events_lagged.wrapping_add(count),
                ..*old(self)
            }),
    {
        self.events_lagged = self.events_lagged.wrapping_add(count);
    }

    /// The exposition: each series with its help, its type and its value.
    pub open spec fn exposition(self, now: Readings) -> Seq<char> {
        series(
            "mooncore_uptime_seconds"@,
            "Seconds since the core started."@,
            "gauge"@,
            decimal::digits(now.uptime_secs as int),
        ) + series(
            "mooncore_terminals_connected"@,
            "Terminals with an open session right now."@,
            "gauge"@,
            decimal::integer_text(self.terminals_connected as int),
        ) + series(
            "mooncore_terminals_total"@,
            "Terminal sessions accepted since start."@,
            "counter"@,
            decimal::digits(self.terminals_total as int),
        ) + series(
            "mooncore_events_broadcast_total"@,
            "Market events published to the fanout."@,
            "counter"@,
            decimal::digits(self.events_broadcast as int),
        ) + series(
            "mooncore_events_dropped_total"@,
            "Events a connector produced that no consumer was there to receive. Non-zero means the core lost market data."@,
            "counter"@,
            decimal::digits(now.dropped as int),
        ) + series(
            "mooncore_events_lagged_total"@,
            "Events dropped for terminals that could not keep up. Non-zero means some terminal rendered a stale book until it resynced."@,
            "counter"@,
            decimal::digits(self.events_lagged as int),
        )
    }

    /// Prometheus text exposition. Every series carries HELP and TYPE: an unlabelled number on a
    /// dashboard at three in the morning is worse than no number.
    pub fn render(&self, now: Readings) -> (r: String)
        ensures
            r@ == self.exposition(now),
    {
        let mut r = String::new();
        metric(
            &mut r,
            "mooncore_uptime_seconds",
            "Seconds since the core started.",
            "gauge",
            text::unsigned(now.uptime_secs),
        );
        metric(
            &mut r,
            "mooncore_terminals_connected",
            "Terminals with an open session right now.",
            "gauge",
            text::signed(self.terminals_connected),
        );
        metric(
            &mut r,
            "mooncore_terminals_total",
            "Terminal sessions accepted since start.",
            "counter",
            text::unsigned(self.terminals_total),
        );
        metric(
            &mut r,
            "mooncore_events_broadcast_total",
            "Market events published to the fanout.",
            "counter",
            text::unsigned(self.events_broadcast),
        );
        metric(
            &mut r,
            "mooncore_events_dropped_total",
            "Events a connector produced that no consumer was there to receive. Non-zero means the core lost market data.",
            "counter",
            text::unsigned(now.dropped),
        );
        metric(
            &mut r,
            "mooncore_events_lagged_total",
            "Events dropped for terminals that could not keep up. Non-zero means some terminal rendered a stale book until it resynced.",
            "counter",
            text::unsigned(self.events_lagged),
        );
        assert(r@ =~= self.exposition(now));
        r
    }

    /// Whether the core still has a path from the connectors to the terminals.
    ///
    /// A closed sink means every connector is writing into nothing: the process is alive, the
    /// port answers, and no market data can ever arrive again.
    pub fn healthy(&self, now: Readings) -> (r: bool)
        ensures
            r == !now.sink_closed,
    {
        !now.sink_closed
    }
}

/// What is counted after sessions have come and gone in some order; `true` is one that came.
pub open spec fn after_sessions(metrics: Metrics, moves: Seq<bool>) -> Metrics
    decreases moves.len(),
{
    if moves.len() == 0 {
        metrics
    } else {
        let m = after_sessions(metrics, moves.drop_last());
        if moves.last() {
            m.with_terminal()
        } else {
            m.without_terminal()
        }
    }
}

/// How many of the moves are of a kind.
pub open spec fn how_many(moves: Seq<bool>, kind: bool) -> int
    decreases moves.len(),
{
    if moves.len() == 0 {
        0
    } else {
        how_many(moves.drop_last(), kind) + if moves.last() == kind {
            1int
        } else {
            0
        }
    }
}

/// However sessions come and go, the gauge shows how many are there, and the total how many ever
/// came: the gauge is back at zero once all have gone, and the total does not come down with it.
pub proof fn gauge_counts_who_is_there(metrics: Metrics, moves: Seq<bool>)
    requires
        metrics.terminals_connected == 0,
        metrics.terminals_total + moves.len() <= i64::MAX,
    ensures
        after_sessions(metrics, moves).terminals_connected == how_many(moves, true) - how_many(
            moves,
            false,
        ),
        after_sessions(metrics, moves).terminals_total == metrics.terminals_total + how_many(
            moves,
            true,
        ),
        0 <= how_many(moves, true) <= moves.len(),
        0 <= how_many(moves, false) <= moves.len(),
    decreases moves.len(),
{
    if moves.len() > 0 {
        gauge_counts_who_is_there(metrics, moves.drop_last());
    }
}

/// One series: its help, its type and its value, a line each.
pub open spec fn series(
    name: Seq<char>,
    help: Seq<char>,
    kind: Seq<char>,
    value: Seq<char>,
) -> Seq<char> {
    "# HELP "@ + name + " "@ + help + "\n# TYPE "@ + name + " "@ + kind + "\n"@ + name + " "@
        + value + "\n"@
}

/// Whether a text has a line.
pub open spec fn has_line(text: Seq<char>, line: Seq<char>) -> bool {
    exists|before: Seq<char>, after: Seq<char>|
        text == #[trigger] (before + "\n"@ + line + "\n"@ + after)
}

proof fn lemma_series_line(
    before: Seq<char>,
    name: Seq<char>,
    help: Seq<char>,
    kind: Seq<char>,
    value: Seq<char>,
    after: Seq<char>,
)
    ensures
        has_line(before + series(name, help, kind, value) + after, name + " "@ + value),
{
    let head = before + ("# HELP "@ + name + " "@ + help + "\n# TYPE "@ + name + " "@ + kind);
    assert(before + series(name, help, kind, value) + after =~= head + "\n"@ + (name + " "@ + value)
        + "\n"@ + after);
}

/// Every number is shown on a line of its own, behind its own name.
pub proof fn every_number_has_its_line(m: Metrics, now: Readings)
    ensures
        has_line(
            m.exposition(now),
            "mooncore_uptime_seconds"@ + " "@ + decimal::digits(now.uptime_secs as int),
        ),
        has_line(
            m.exposition(now),
            "mooncore_terminals_connected"@ + " "@ + decimal::integer_text(
                m.terminals_connected as int,
            ),
        ),
        has_line(
            m.exposition(now),
            "mooncore_terminals_total"@ + " "@ + decimal::digits(m.terminals_total as int),
        ),
        has_line(
            m.exposition(now),
            "mooncore_events_broadcast_total"@ + " "@ + decimal::digits(m.events_broadcast as int),
        ),
        has_line(
            m.exposition(now),
            "mooncore_events_dropped_total"@ + " "@ + decimal::digits(now.dropped as int),
        ),
        has_line(
            m.exposition(now),
            "mooncore_events_lagged_total"@ + " "@ + decimal::digits(m.events_lagged as int),
        ),
{
    let (n1, h1, k1, v1) = (
        "mooncore_uptime_seconds"@,
        "Seconds since the core started."@,
        "gauge"@,
        decimal::digits(now.uptime_secs as int),
    );
    let (n2, h2, k2, v2) = (
        "mooncore_terminals_connected"@,
        "Terminals with an open session right now."@,
        "gauge"@,
        decimal::integer_text(m.terminals_connected as int),
    );
    let (n3, h3, k3, v3) = (
        "mooncore_terminals_total"@,
        "Terminal sessions accepted since start."@,
        "counter"@,
        decimal::digits(m.terminals_total as int),
    );
    let (n4, h4, k4, v4) = (
        "mooncore_events_broadcast_total"@,
        "Market events published to the fanout."@,
        "counter"@,
        decimal::digits(m.events_broadcast as int),
    );
    let (n5, h5, k5, v5) = (
        "mooncore_events_dropped_total"@,
        "Events a connector produced that no consumer was there to receive. Non-zero means the core lost market data."@,
        "counter"@,
        decimal::digits(now.dropped as int),
    );
    let (n6, h6, k6, v6) = (
        "mooncore_events_lagged_total"@,
        "Events dropped for terminals that could not keep up. Non-zero means some terminal rendered a stale book until it resynced."@,
        "counter"@,
        decimal::digits(m.events_lagged as int),
    );
    let s1 = series(n1, h1, k1, v1);
    let s2 = series(n2, h2, k2, v2);
    let s3 = series(n3, h3, k3, v3);
    let s4 = series(n4, h4, k4, v4);
    let s5 = series(n5, h5, k5, v5);
    let s6 = series(n6, h6, k6, v6);
    let all = m.exposition(now);
    let none = Seq::<char>::empty();
    assert(all =~= none + s1 + (s2 + s3 + s4 + s5 + s6));
    lemma_series_line(none, n1, h1, k1, v1, s2 + s3 + s4 + s5 + s6);
    assert(all =~= s1 + s2 + (s3 + s4 + s5 + s6));
    lemma_series_line(s1, n2, h2, k2, v2, s3 + s4 + s5 + s6);
    assert(all =~= (s1 + s2) + s3 + (s4 + s5 + s6));
    lemma_series_line(s1 + s2, n3, h3, k3, v3, s4 + s5 + s6);
    assert(all =~= (s1 + s2 + s3) + s4 + (s5 + s6));
    lemma_series_line(s1 + s2 + s3, n4, h4, k4, v4, s5 + s6);
    assert(all =~= (s1 + s2 + s3 + s4) + s5 + s6);
    lemma_series_line(s1 + s2 + s3 + s4, n5, h5, k5, v5, s6);
    assert(all =~= (s1 + s2 + s3 + s4 + s5) + s6 + none);
    lemma_series_line(s1 + s2 + s3 + s4 + s5, n6, h6, k6, v6, none);
}

fn metric(out: &mut String, name: &str, help: &str, kind: &str, value: String)
    ensures
        final(out)@ == old(out)@ + series(name@, help@, kind@, value@),
{
    out.append("# HELP ");
    out.append(name);
    out.append(" ");
    out.append(help);
    out.append("\n# TYPE ");
    out.append(name);
    out.append(" ");
    out.append(kind);
    out.append("\n");
    out.append(name);
    out.append(" ");
    out.append(value.as_str());
    out.append("\n");
    assert(out@ =~= old(out)@ + series(name@, help@, kind@, value@));
}

/// What bytes are read as, what is no text in them replaced.
pub uninterp spec fn lossy(bytes: Seq<u8>) -> Seq<char>;

/// Calls `String::from_utf8_lossy`.
///
/// Claimed: bytes that are valid UTF-8 are read as the text they encode. How invalid bytes are
/// replaced is left to the name.
#[verifier::external_body]
fn lossy_text(bytes: &[u8]) -> (r: String)
    ensures
        r@ == lossy(bytes@),
        utf8::valid_utf8(bytes@) ==> r@ == utf8::decode_utf8(bytes@),
{
    String::from_utf8_lossy(bytes).into_owned()
}

/// Whether a character is white space, as Unicode has it.
pub open spec fn is_white(c: char) -> bool {
    let n = c as u32;
    ||| 0x9 <= n <= 0xd
    ||| n == 0x20 || n == 0x85 || n == 0xa0 || n == 0x1680
    ||| 0x2000 <= n <= 0x200a
    ||| n == 0x2028 || n == 0x2029 || n == 0x202f || n == 0x205f || n == 0x3000
}

/// Spaces, tabs and line ends part words, and no other character that a request line is made of.
pub proof fn words_are_parted_by_white_space(c: char)
    ensures
        is_white(' ') && is_white('\t') && is_white('\r') && is_white('\n'),
        '!' <= c <= '~' ==> !is_white(c),
{
}

/// A text without the white space in front.
pub open spec fn unindented(s: Seq<char>) -> Seq<char>
    decreases s.len(),
{
    if s.len() > 0 && is_white(s[0]) {
        unindented(s.drop_first())
    } else {
        s
    }
}

/// How many characters a text has before its first white space.
pub open spec fn word_len(s: Seq<char>) -> int
    decreases s.len(),
{
    if s.len() > 0 && !is_white(s[0]) {
        1 + word_len(s.drop_first())
    } else {
        0
    }
}

/// The first word of a text, empty where it has none.
pub open spec fn first_word(s: Seq<char>) -> Seq<char> {
    unindented(s).take(word_len(unindented(s)))
}

/// What follows the first word.
pub open spec fn after_word(s: Seq<char>) -> Seq<char> {
    unindented(s).skip(word_len(unindented(s)))
}

fn white(c: char) -> (r: bool)
    ensures
        r == is_white(c),
{
    let n: u32 = c as u32;
    (0x9 <= n && n <= 0xd) || n == 0x20 || n == 0x85 || n == 0xa0 || n == 0x1680 || (0x2000 <= n
        && n <= 0x200a) || n == 0x2028 || n == 0x2029 || n == 0x202f || n == 0x205f || n == 0x3000
}

proof fn lemma_word_len(s: Seq<char>, n: int)
    requires
        0 <= n <= s.len(),
        forall|i: int| 0 <= i < n ==> !is_white(#[trigger] s[i]),
        n < s.len() ==> is_white(s[n]),
    ensures
        word_len(s) == n,
    decreases n,
{
    if n > 0 {
        let t = s.drop_first();
        assert forall|i: int| 0 <= i < n - 1 implies !is_white(#[trigger] t[i]) by {
            assert(t[i] == s[i + 1]);
        }
        assert(!is_white(s[0]));
        lemma_word_len(t, n - 1);
    }
}

proof fn lemma_unindented(s: Seq<char>, n: int)
    requires
        0 <= n <= s.len(),
        forall|i: int| 0 <= i < n ==> is_white(#[trigger] s[i]),
        n < s.len() ==> !is_white(s[n]),
    ensures
        unindented(s) == s.skip(n),
    decreases n,
{
    if n > 0 {
        let t = s.drop_first();
        assert forall|i: int| 0 <= i < n - 1 implies is_white(#[trigger] t[i]) by {
            assert(t[i] == s[i + 1]);
        }
        assert(is_white(s[0]));
        lemma_unindented(t, n - 1);
        assert(t.skip(n - 1) =~= s.skip(n));
    } else {
        assert(s.skip(0) =~= s);
    }
}

/// The first word from a place on, and where it ends.
fn next_word(s: &Vec<char>, from: usize) -> (r: (String, usize))
    requires
        from <= s@.len(),
    ensures
        r.1 <= s@.len(),
        r.0@ == first_word(s@.skip(from as int)),
        s@.skip(r.1 as int) == after_word(s@.skip(from as int)),
{
    let ghost rest = s@.skip(from as int);
    let mut i: usize = from;
    while i < s.len() && white(s[i])
        invariant
            from <= i <= s@.len(),
            rest == s@.skip(from as int),
            forall|j: int| 0 <= j < i - from ==> is_white(#[trigger] rest[j]),
        decreases s@.len() - i,
    {
        assert(rest[i - from] == s@[i as int]);
        i += 1;
    }
    proof {
        if i < s@.len() {
            assert(rest[i - from] == s@[i as int]);
        }
        lemma_unindented(rest, i - from);
        assert(rest.skip(i - from) =~= s@.skip(i as int));
    }
    let begin: usize = i;
    let ghost word = s@.skip(begin as int);
    let mut r = String::new();
    while i < s.len() && !white(s[i])
        invariant
            begin <= i <= s@.len(),
            word == s@.skip(begin as int),
            forall|j: int| 0 <= j < i - begin ==> !is_white(#[trigger] word[j]),
            r@ == word.take(i - begin),
        decreases s@.len() - i,
    {
        assert(word[i - begin] == s@[i as int]);
        r.push(s[i]);
        i += 1;
        assert(word.take(i - begin) =~= word.take(i - begin - 1).push(word[i - begin - 1]));
    }
    proof {
        if i < s@.len() {
            assert(word[i - begin] == s@[i as int]);
        }
        lemma_word_len(word, i - begin);
        assert(word.skip(i - begin) =~= s@.skip(i as int));
    }
    (r, i)
}

/// A response with its length in bytes, after which the connection is closed.
pub open spec fn response(
    status: u16,
    reason: Seq<char>,
    content_type: Seq<char>,
    body: Seq<char>,
) -> Seq<char> {
    "HTTP/1.1 "@ + decimal::digits(status as int) + " "@ + reason + "\r\nContent-Type: "@
        + content_type + "\r\nContent-Length: "@ + decimal::digits(
        utf8::encode_utf8(body).len() as int,
    ) + "\r\nConnection: close\r\n\r\n"@ + body
}

/// The answer to a request with a method and a path.
pub open spec fn routed(
    method: Seq<char>,
    path: Seq<char>,
    metrics: Metrics,
    now: Readings,
) -> Seq<char> {
    let plain = "text/plain; charset=utf-8"@;
    if method != "GET"@ {
        response(405, "Method Not Allowed"@, plain, "method not allowed\n"@)
    } else if path == "/metrics"@ {
        response(
            200,
            "OK"@,
            "text/plain; version=0.0.4; charset=utf-8"@,
            metrics.exposition(now),
        )
    } else if path == "/health"@ {
        if now.sink_closed {
            response(
                503,
                "Service Unavailable"@,
                plain,
                "connector event stream is closed — no market data can arrive\n"@,
            )
        } else {
            response(200, "OK"@, plain, "ok\n"@)
        }
    } else {
        response(404, "Not Found"@, plain, "not found\n"@)
    }
}

/// The answer to a request, by the first two words of it alone.
pub open spec fn answered(head: Seq<char>, metrics: Metrics, now: Readings) -> Seq<char> {
    routed(first_word(head), first_word(after_word(head)), metrics, now)
}

/// Whether an answer has a status.
pub open spec fn has_status(answer: Seq<char>, status: u16) -> bool {
    exists|rest: Seq<char>|
        answer == #[trigger] ("HTTP/1.1 "@ + decimal::digits(status as int) + " "@ + rest)
}

/// Whether an answer has a body, with its length in bytes said before it.
pub open spec fn has_body(answer: Seq<char>, body: Seq<char>) -> bool {
    exists|head: Seq<char>|
        answer == #[trigger] (head + "\r\nContent-Length: "@ + decimal::digits(
            utf8::encode_utf8(body).len() as int,
        ) + "\r\nConnection: close\r\n\r\n"@ + body)
}

proof fn lemma_response(status: u16, reason: Seq<char>, kind: Seq<char>, body: Seq<char>)
    ensures
        has_status(response(status, reason, kind, body), status),
        has_body(response(status, reason, kind, body), body),
{
    let n = decimal::digits(utf8::encode_utf8(body).len() as int);
    let answer = response(status, reason, kind, body);
    let tail = "\r\nContent-Length: "@ + n + "\r\nConnection: close\r\n\r\n"@ + body;
    let rest = reason + "\r\nContent-Type: "@ + kind + tail;
    assert(answer =~= "HTTP/1.1 "@ + decimal::digits(status as int) + " "@ + rest);
    let head = "HTTP/1.1 "@ + decimal::digits(status as int) + " "@ + reason
        + "\r\nContent-Type: "@ + kind;
    assert(answer =~= head + "\r\nContent-Length: "@ + n + "\r\nConnection: close\r\n\r\n"@ + body);
}

/// Only `GET` is answered: the numbers under one path, whether there is still a way for market data
/// under another, and nothing anywhere else.
pub proof fn requests_find_their_answer(
    method: Seq<char>,
    path: Seq<char>,
    metrics: Metrics,
    now: Readings,
)
    ensures
        ({
            let answer = routed(method, path, metrics, now);
            let get = method == "GET"@;
            &&& !get ==> has_status(answer, 405)
            &&& get && path == "/metrics"@ ==> has_status(answer, 200) && has_body(
                answer,
                metrics.exposition(now),
            )
            &&& get && path == "/health"@ && !now.sink_closed ==> has_status(answer, 200)
                && has_body(answer, "ok\n"@)
            &&& get && path == "/health"@ && now.sink_closed ==> has_status(answer, 503)
            &&& get && path != "/metrics"@ && path != "/health"@ ==> has_status(answer, 404)
        }),
{
    let plain = "text/plain; charset=utf-8"@;
    lemma_response(405, "Method Not Allowed"@, plain, "method not allowed\n"@);
    lemma_response(
        200,
        "OK"@,
        "text/plain; version=0.0.4; charset=utf-8"@,
        metrics.exposition(now),
    );
    lemma_response(
        503,
        "Service Unavailable"@,
        plain,
        "connector event stream is closed — no market data can arrive\n"@,
    );
    lemma_response(200, "OK"@, plain, "ok\n"@);
    lemma_response(404, "Not Found"@, plain, "not found\n"@);
    reveal_strlit("/metrics");
    reveal_strlit("/health");
    assert("/metrics"@.len() != "/health"@.len());
}

/// Whether a text is one word.
pub open spec fn is_word(s: Seq<char>) -> bool {
    s.len() > 0 && forall|i: int| 0 <= i < s.len() ==> !is_white(#[trigger] s[i])
}

proof fn lemma_word_then(word: Seq<char>, rest: Seq<char>)
    requires
        is_word(word),
        rest.len() > 0 ==> is_white(rest[0]),
    ensures
        first_word(word + rest) == word,
        after_word(word + rest) == rest,
{
    let s = word + rest;
    assert(s[0] == word[0]);
    lemma_unindented(s, 0);
    assert(s.skip(0) =~= s);
    assert forall|i: int| 0 <= i < word.len() implies !is_white(#[trigger] s[i]) by {
        assert(s[i] == word[i]);
    }
    if rest.len() > 0 {
        assert(s[word.len() as int] == rest[0]);
    }
    lemma_word_len(s, word.len() as int);
    assert(s.take(word.len() as int) =~= word);
    assert(s.skip(word.len() as int) =~= rest);
}

/// A request is read by its first two words, whatever follows them.
pub proof fn a_request_is_two_words(
    method: Seq<char>,
    path: Seq<char>,
    rest: Seq<char>,
    metrics: Metrics,
    now: Readings,
)
    requires
        is_word(method),
        is_word(path),
        rest.len() > 0 ==> is_white(rest[0]),
    ensures
        answered(method + " "@ + path + rest, metrics, now) == routed(method, path, metrics, now),
{
    reveal_strlit(" ");
    let tail = " "@ + path + rest;
    assert(method + " "@ + path + rest =~= method + tail);
    lemma_word_then(method, tail);
    lemma_word_then(path, rest);
    assert(tail.drop_first() =~= path + rest);
    assert(unindented(tail) == unindented(path + rest));
}

/// Answer a request.
pub fn respond(request: &[u8], metrics: &Metrics, now: Readings) -> (r: String)
    ensures
        r@ == answered(lossy(request@), *metrics, now),
        utf8::valid_utf8(request@) ==> r@ == answered(utf8::decode_utf8(request@), *metrics, now),
{
    let head = lossy_text(request);
    answer(head.as_str(), metrics, now)
}

/// Answer a request that has been read as text.
pub fn answer(head: &str, metrics: &Metrics, now: Readings) -> (r: String)
    ensures
        r@ == answered(head@, *metrics, now),
{
    let chars = text::chars_of(head);
    assert(chars@.skip(0) =~= chars@);
    let (method, end) = next_word(&chars, 0);
    let (path, _) = next_word(&chars, end);
    // Only GET. A scanner posting at an ops port gets a flat refusal, not an attempt.
    if !text::same(method.as_str(), "GET") {
        return http(
            405,
            "Method Not Allowed",
            "text/plain; charset=utf-8",
            "method not allowed\n",
        );
    }
    if text::same(path.as_str(), "/metrics") {
        let body = metrics.render(now);
        http(200, "OK", "text/plain; version=0.0.4; charset=utf-8", body.as_str())
    } else if text::same(path.as_str(), "/health") {
        if metrics.healthy(now) {
            http(200, "OK", "text/plain; charset=utf-8", "ok\n")
        } else {
            http(
                503,
                "Service Unavailable",
                "text/plain; charset=utf-8",
                "connector event stream is closed — no market data can arrive\n",
            )
        }
    } else {
        http(404, "Not Found", "text/plain; charset=utf-8", "not found\n")
    }
}

fn http(status: u16, reason: &str, content_type: &str, body: &str) -> (r: String)
    ensures
        r@ == response(status, reason@, content_type@, body@),
{
    let mut r = "HTTP/1.1 ".to_owned();
    r.append(text::unsigned(status as u64).as_str());
    r.append(" ");
    r.append(reason);
    r.append("\r\nContent-Type: ");
    r.append(content_type);
    r.append("\r\nContent-Length: ");
    let bytes = body.as_bytes();
    r.append(text::unsigned(bytes.len() as u64).as_str());
    r.append("\r\nConnection: close\r\n\r\n");
    r.append(body);
    r
}

} // verus!
