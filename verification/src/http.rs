//! The agent's HTTP endpoint: which answer a request gets, and the exact
//! bytes of each answer.
use vstd::prelude::*;
use vstd::string::StringExecFns;
use crate::report::{self, MacInfo, macs_to_json};
use crate::text::{
    self, chars_of, decode_lossy, line_ranges, push_char, range_equals, range_starts_with,
    word_ranges,
};

verus! {

/// The answer that a request gets.
#[derive(Debug, Clone, Copy, PartialEq, Eq, Structural)]
pub enum Route {
    /// A CORS preflight (`OPTIONS`) request: `204 No Content`.
    Preflight,
    /// A request for `/mac`: the hostname and the interfaces.
    MacReport,
    /// Anything else: `404 Not Found`.
    NotFound,
}

/// The request target of a request line: its second whitespace-separated
/// word, or `/` when it has fewer than two.
pub open spec fn request_target(line: Seq<char>) -> Seq<char> {
    let ws = text::words(line);
    if ws.len() >= 2 {
        ws[1]
    } else {
        "/"@
    }
}

/// The answer to the request whose text is `text`: a first line that starts
/// with `OPTIONS` is a preflight, whatever its target; otherwise the target
/// `/mac` gets the report and every other target gets 404.
pub open spec fn route_of(text: Seq<char>) -> Route {
    let line = text::first_line(text);
    if text::starts_with(line, "OPTIONS"@) {
        Route::Preflight
    } else if request_target(line) == "/mac"@ {
        Route::MacReport
    } else {
        Route::NotFound
    }
}

/// Decides the answer to the request text `text`.
pub fn route_text(text: &str) -> (r: Route)
    ensures
        r == route_of(text@),
{
    let chars = chars_of(text);
    let ranges = line_ranges(chars.as_slice());
    let (lo, hi) = if ranges.len() > 0 {
        ranges[0]
    } else {
        (0, 0)
    };
    assert(chars@.subrange(lo as int, hi as int) == text::first_line(text@)) by {
        if ranges@.len() == 0 {
            assert(chars@.subrange(0, 0) =~= seq![]);
        }
    }
    let options = chars_of("OPTIONS");
    if range_starts_with(chars.as_slice(), lo, hi, options.as_slice()) {
        return Route::Preflight;
    }
    let target = chars_of("/mac");
    let ws = word_ranges(chars.as_slice(), lo, hi);
    if ws.len() >= 2 {
        let (a, b) = ws[1];
        if range_equals(chars.as_slice(), a, b, target.as_slice()) {
            Route::MacReport
        } else {
            Route::NotFound
        }
    } else {
        proof {
            reveal_strlit("/");
            reveal_strlit("/mac");
            assert("/"@.len() != "/mac"@.len());
        }
        Route::NotFound
    }
}

/// Decides the answer to the raw request bytes `buf`, read as UTF-8 with
/// invalid sequences replaced.
pub fn route_request(buf: &[u8]) -> (r: Route)
    ensures
        r == route_of(text::utf8_lossy(buf@)),
{
    let text = decode_lossy(buf);
    route_text(text.as_str())
}

/// A request whose first line starts with `OPTIONS` is answered as a
/// preflight, whatever target it names.
pub proof fn lemma_preflight_precedes_target(request: Seq<char>)
    ensures
        text::starts_with(text::first_line(request), "OPTIONS"@) ==> route_of(request)
            == Route::Preflight,
        route_of(request) == Route::MacReport ==> request_target(text::first_line(request))
            == "/mac"@,
{
}

/// Whether `m` is a run of non-whitespace characters.
pub open spec fn is_token(m: Seq<char>) -> bool {
    m.len() > 0 && forall|i: int| 0 <= i < m.len() ==> !text::is_space(#[trigger] m[i])
}

proof fn lemma_not_options(method: Seq<char>, rest: Seq<char>)
    requires
        is_token(method),
        !(method.len() >= 7 && method.take(7) == "OPTIONS"@),
    ensures
        !text::starts_with(method + seq![' '] + rest, "OPTIONS"@),
{
    reveal_strlit("OPTIONS");
    let line = method + seq![' '] + rest;
    if text::starts_with(line, "OPTIONS"@) {
        if method.len() >= 7 {
            assert(method.take(7) =~= line.take(7));
        } else {
            assert(line.take(7)[method.len() as int] == line[method.len() as int]);
            assert(line[method.len() as int] == ' ');
        }
    }
}

/// A request whose line is `method target version`, ended by CR LF, gets the
/// report exactly when the target is `/mac`, and 404 otherwise, whatever
/// the method (other than `OPTIONS...`), the version and the rest of the
/// request.
pub proof fn lemma_request_line_routes(
    method: Seq<char>,
    target: Seq<char>,
    version: Seq<char>,
    rest: Seq<char>,
)
    requires
        is_token(method),
        is_token(target),
        !(method.len() >= 7 && method.take(7) == "OPTIONS"@),
        forall|i: int| 0 <= i < version.len() ==> version[i] != '\n',
    ensures
        route_of(method + seq![' '] + target + seq![' '] + version + seq!['\r', '\n'] + rest)
            == if target == "/mac"@ {
            Route::MacReport
        } else {
            Route::NotFound
        },
{
    let tail = target + seq![' '] + version;
    let line = method + seq![' '] + tail;
    let req = method + seq![' '] + target + seq![' '] + version + seq!['\r', '\n'] + rest;
    assert(req =~= line + seq!['\r', '\n'] + rest);
    assert forall|i: int| 0 <= i < line.len() implies line[i] != '\n' by {
        if i < method.len() {
            assert(line[i] == method[i]);
        } else if i > method.len() && i < method.len() + 1 + target.len() {
            assert(line[i] == target[i - method.len() - 1]);
        } else if i > method.len() + target.len() + 1 {
            assert(line[i] == version[i - method.len() - target.len() - 2]);
        }
    }
    text::lemma_first_line_crlf(line, rest);
    lemma_not_options(method, tail);
    text::lemma_words_cons(method, ' ', tail);
    text::lemma_words_skip_space(' ', tail);
    text::lemma_words_cons(target, ' ', version);
    assert(line =~= method + seq![' '] + tail);
    let ws = text::words(line);
    assert(ws == seq![method] + (seq![target] + text::words(seq![' '] + version)));
    assert(ws[1] == target);
}

/// A request line with a method but no target is answered 404: the target
/// is then `/`.
pub proof fn lemma_request_without_target(method: Seq<char>, rest: Seq<char>)
    requires
        is_token(method),
        !(method.len() >= 7 && method.take(7) == "OPTIONS"@),
    ensures
        route_of(method + seq!['\r', '\n'] + rest) == Route::NotFound,
{
    reveal_strlit("OPTIONS");
    reveal_strlit("/");
    reveal_strlit("/mac");
    assert forall|i: int| 0 <= i < method.len() implies method[i] != '\n' by {
        assert(!text::is_space(method[i]));
    }
    text::lemma_first_line_crlf(method, rest);
    text::lemma_words_single(method);
    if text::starts_with(method, "OPTIONS"@) {
        assert(method.len() >= 7);
    }
    assert("/"@.len() != "/mac"@.len());
}

/// Any request that starts with `OPTIONS` is a preflight, whatever follows.
pub proof fn lemma_options_prefix(rest: Seq<char>)
    ensures
        route_of("OPTIONS"@ + rest) == Route::Preflight,
{
    reveal_strlit("OPTIONS");
    let s = "OPTIONS"@ + rest;
    assert forall|i: int| 0 <= i < 7 implies s[i] != '\n' by {
        assert(s[i] == "OPTIONS"@[i]);
    }
    text::lemma_prefix_before_at_least(s, '\n', 7);
    let k = text::prefix_before(s, '\n');
    let line = text::first_line(s);
    if k >= s.len() {
        assert(line == s);
        assert(s.take(7) =~= "OPTIONS"@);
    } else {
        let t = s.take(k as int);
        if k == 7 {
            assert(t.last() == 'S');
            assert(line == t);
            assert(t.take(7) =~= "OPTIONS"@);
        } else {
            assert(line.len() >= 7);
            assert(line.take(7) =~= "OPTIONS"@);
        }
    }
}

// ---------------------------------------------------------------------------
//  Decimal numbers
// ---------------------------------------------------------------------------

/// The decimal digit for `d` (`0` to `9`).
pub open spec fn digit_char(d: nat) -> char {
    if d == 0 {
        '0'
    } else if d == 1 {
        '1'
    } else if d == 2 {
        '2'
    } else if d == 3 {
        '3'
    } else if d == 4 {
        '4'
    } else if d == 5 {
        '5'
    } else if d == 6 {
        '6'
    } else if d == 7 {
        '7'
    } else if d == 8 {
        '8'
    } else {
        '9'
    }
}

/// The value of a decimal digit character (0 for any other character).
pub open spec fn digit_value(c: char) -> nat {
    if '0' <= c <= '9' {
        (c as u32 - '0' as u32) as nat
    } else {
        0
    }
}

/// The decimal representation of `n`, without leading zeros.
pub open spec fn decimal(n: nat) -> Seq<char>
    decreases n,
{
    if n < 10 {
        seq![digit_char(n)]
    } else {
        decimal(n / 10).push(digit_char(n % 10))
    }
}

/// The number that the decimal digits `s` stand for.
pub open spec fn decimal_value(s: Seq<char>) -> nat
    decreases s.len(),
{
    if s.len() == 0 {
        0
    } else {
        decimal_value(s.drop_last()) * 10 + digit_value(s.last())
    }
}

fn digit(d: usize) -> (c: char)
    requires
        d < 10,
    ensures
        c == digit_char(d as nat),
{
    if d == 0 {
        '0'
    } else if d == 1 {
        '1'
    } else if d == 2 {
        '2'
    } else if d == 3 {
        '3'
    } else if d == 4 {
        '4'
    } else if d == 5 {
        '5'
    } else if d == 6 {
        '6'
    } else if d == 7 {
        '7'
    } else if d == 8 {
        '8'
    } else {
        '9'
    }
}

/// Appends the decimal representation of `n` to `out`.
pub fn push_decimal(out: &mut String, n: usize)
    ensures
        final(out)@ == old(out)@ + decimal(n as nat),
    decreases n,
{
    if n >= 10 {
        push_decimal(out, n / 10);
    }
    push_char(out, digit(n % 10));
    assert(out@ =~= old(out)@ + decimal(n as nat));
}

proof fn lemma_digit(d: nat)
    requires
        d < 10,
    ensures
        digit_value(digit_char(d)) == d,
{
    assert('0' as u32 == 48 && '9' as u32 == 57);
    assert('1' as u32 == 49 && '2' as u32 == 50 && '3' as u32 == 51 && '4' as u32 == 52);
    assert('5' as u32 == 53 && '6' as u32 == 54 && '7' as u32 == 55 && '8' as u32 == 56);
}

/// A number written by [`decimal`] reads back as the same number: the
/// `Content-Length` header states the body's length exactly.
pub proof fn lemma_decimal_roundtrip(n: nat)
    ensures
        decimal_value(decimal(n)) == n,
        decimal(n).len() > 0,
    decreases n,
{
    lemma_digit(n % 10);
    if n >= 10 {
        lemma_decimal_roundtrip(n / 10);
        assert(decimal(n).drop_last() =~= decimal(n / 10));
        assert(decimal(n).last() == digit_char(n % 10));
        vstd::arithmetic::div_mod::lemma_fundamental_div_mod(n as int, 10);
        assert(decimal_value(decimal(n)) == decimal_value(decimal(n / 10)) * 10 + n % 10);
    } else {
        assert(decimal(n).drop_last() =~= seq![]);
        assert(decimal(n).last() == digit_char(n));
        assert(decimal_value(seq![]) == 0);
        assert(decimal_value(decimal(n)) == decimal_value(decimal(n).drop_last()) * 10 + digit_value(decimal(n).last()));
    }
}

// ---------------------------------------------------------------------------
//  Responses
// ---------------------------------------------------------------------------

/// The text of header lines: each line followed by CR LF.
pub open spec fn header_text(lines: Seq<Seq<char>>) -> Seq<char>
    decreases lines.len(),
{
    if lines.len() == 0 {
        seq![]
    } else {
        lines[0] + "\r\n"@ + header_text(lines.drop_first())
    }
}

/// An answer: the status line, the header lines, an empty line, the body.
pub open spec fn answer_text(status: Seq<char>, headers: Seq<Seq<char>>, body: Seq<char>) -> Seq<
    char,
> {
    status + "\r\n"@ + header_text(headers) + "\r\n"@ + body
}

/// The name that starts a `Content-Length` header line.
pub open spec fn content_length_name() -> Seq<char> {
    "Content-Length: "@
}

/// The `Content-Length` header line for a body of `n` bytes.
pub open spec fn content_length_line(n: nat) -> Seq<char> {
    content_length_name() + decimal(n)
}

/// The CORS header lines that every answer carries.
pub open spec fn cors_lines() -> Seq<Seq<char>> {
    seq!["Access-Control-Allow-Origin: *"@, "Access-Control-Allow-Methods: GET, OPTIONS"@]
}

/// The header lines of the preflight answer.
pub open spec fn preflight_headers() -> Seq<Seq<char>> {
    cors_lines() + seq![content_length_line(0)]
}

/// The header lines of an answer with a JSON body of `n` bytes.
pub open spec fn json_headers(n: nat) -> Seq<Seq<char>> {
    cors_lines() + seq!["Content-Type: application/json"@, content_length_line(n)]
}

/// The answer to a preflight request: no body.
pub open spec fn preflight_text() -> Seq<char> {
    answer_text("HTTP/1.1 204 No Content"@, preflight_headers(), seq![])
}

/// An answer with a JSON body: the CORS headers, the content type and the
/// body's length in UTF-8 bytes.
pub open spec fn json_response_text(status: Seq<char>, body: Seq<char>) -> Seq<char> {
    answer_text(status, json_headers(vstd::utf8::encode_utf8(body).len()), body)
}

/// The JSON body of the report: the hostname and the interfaces.
pub open spec fn report_body(hostname: Seq<char>, macs: Seq<char>) -> Seq<char> {
    "{\"hostname\":\""@ + hostname + "\",\"macs\":"@ + macs + "}"@
}

/// The status line of the report answer.
pub open spec fn ok_status() -> Seq<char> {
    "HTTP/1.1 200 OK"@
}

/// The status line of the answer to an unknown target.
pub open spec fn not_found_status() -> Seq<char> {
    "HTTP/1.1 404 Not Found"@
}

/// The body of the answer to an unknown target.
pub open spec fn not_found_body() -> Seq<char> {
    "{\"error\":\"Not found\"}"@
}

/// How many of `lines` are `Content-Length` header lines.
pub open spec fn content_length_count(lines: Seq<Seq<char>>) -> nat
    decreases lines.len(),
{
    if lines.len() == 0 {
        0
    } else {
        (if text::starts_with(lines[0], content_length_name()) {
            1nat
        } else {
            0nat
        }) + content_length_count(lines.drop_first())
    }
}

/// Whether the header lines `lines` hold exactly one `Content-Length` line,
/// and its value reads back as `n`.
pub open spec fn one_content_length(lines: Seq<Seq<char>>, n: nat) -> bool {
    &&& content_length_count(lines) == 1
    &&& forall|k: int|
        0 <= k < lines.len() && text::starts_with(#[trigger] lines[k], content_length_name())
            ==> decimal_value(lines[k].skip(content_length_name().len() as int)) == n
}

proof fn lemma_header_text_concat(a: Seq<Seq<char>>, b: Seq<Seq<char>>)
    ensures
        header_text(a + b) == header_text(a) + header_text(b),
    decreases a.len(),
{
    if a.len() == 0 {
        assert(a + b =~= b);
    } else {
        assert((a + b).drop_first() =~= a.drop_first() + b);
        lemma_header_text_concat(a.drop_first(), b);
        assert(header_text(a + b) =~= header_text(a) + header_text(b));
    }
}

proof fn lemma_header_text_one(l: Seq<char>)
    ensures
        header_text(seq![l]) == l + "\r\n"@,
{
    let e = Seq::<Seq<char>>::empty();
    assert(seq![l].drop_first() =~= e);
    assert(header_text(e) == Seq::<char>::empty());
    assert(seq![l][0] == l);
    assert(header_text(seq![l]) =~= l + "\r\n"@);
}

proof fn lemma_count_concat(a: Seq<Seq<char>>, b: Seq<Seq<char>>)
    ensures
        content_length_count(a + b) == content_length_count(a) + content_length_count(b),
    decreases a.len(),
{
    if a.len() == 0 {
        assert(a + b =~= b);
    } else {
        assert((a + b).drop_first() =~= a.drop_first() + b);
        lemma_count_concat(a.drop_first(), b);
    }
}

proof fn lemma_count_one(l: Seq<char>)
    ensures
        content_length_count(seq![l]) == if text::starts_with(l, content_length_name()) {
            1nat
        } else {
            0nat
        },
{
    let e = Seq::<Seq<char>>::empty();
    assert(seq![l].drop_first() =~= e);
    assert(content_length_count(e) == 0);
    assert(seq![l][0] == l);
}

/// The header text of the CORS lines, line by line.
proof fn lemma_cors_text()
    ensures
        cors_lines() == seq![cors_lines()[0]] + seq![cors_lines()[1]],
        header_text(cors_lines()) == cors_lines()[0] + "\r\n"@ + cors_lines()[1] + "\r\n"@,
{
    let c = cors_lines();
    assert(c =~= seq![c[0]] + seq![c[1]]);
    lemma_header_text_concat(seq![c[0]], seq![c[1]]);
    lemma_header_text_one(c[0]);
    lemma_header_text_one(c[1]);
    assert(header_text(c) =~= c[0] + "\r\n"@ + c[1] + "\r\n"@);
}

proof fn lemma_not_content_length(l: Seq<char>, i: int)
    requires
        0 <= i < l.len(),
        i < content_length_name().len(),
        l[i] != content_length_name()[i],
    ensures
        !text::starts_with(l, content_length_name()),
{
    if text::starts_with(l, content_length_name()) {
        assert(l.take(content_length_name().len() as int)[i] == l[i]);
    }
}

proof fn lemma_content_length_line(n: nat)
    ensures
        text::starts_with(content_length_line(n), content_length_name()),
        decimal_value(content_length_line(n).skip(content_length_name().len() as int)) == n,
{
    assert(content_length_line(n).take(content_length_name().len() as int)
        =~= content_length_name());
    assert(content_length_line(n).skip(content_length_name().len() as int) =~= decimal(n));
    lemma_decimal_roundtrip(n);
}

proof fn lemma_cors_not_content_length()
    ensures
        !text::starts_with(cors_lines()[0], content_length_name()),
        !text::starts_with(cors_lines()[1], content_length_name()),
        !text::starts_with("Content-Type: application/json"@, content_length_name()),
{
    reveal_strlit("Content-Length: ");
    reveal_strlit("Access-Control-Allow-Origin: *");
    reveal_strlit("Access-Control-Allow-Methods: GET, OPTIONS");
    reveal_strlit("Content-Type: application/json");
    lemma_not_content_length(cors_lines()[0], 0);
    lemma_not_content_length(cors_lines()[1], 0);
    lemma_not_content_length("Content-Type: application/json"@, 8);
}

/// Every answer is a status line, header lines, an empty line and the body;
/// its header lines hold the CORS headers and exactly one `Content-Length`,
/// whose value reads back as the body's length in UTF-8 bytes (0 for the
/// preflight, which has no body).
pub proof fn lemma_one_content_length(status: Seq<char>, body: Seq<char>)
    ensures
        preflight_text() == answer_text("HTTP/1.1 204 No Content"@, preflight_headers(), seq![]),
        preflight_headers().take(2) == cors_lines(),
        one_content_length(preflight_headers(), 0),
        json_response_text(status, body) == answer_text(
            status,
            json_headers(vstd::utf8::encode_utf8(body).len()),
            body,
        ),
        json_headers(vstd::utf8::encode_utf8(body).len()).take(2) == cors_lines(),
        one_content_length(
            json_headers(vstd::utf8::encode_utf8(body).len()),
            vstd::utf8::encode_utf8(body).len(),
        ),
{
    let n = vstd::utf8::encode_utf8(body).len();
    lemma_cors_not_content_length();
    lemma_content_length_line(0);
    lemma_content_length_line(n);
    lemma_cors_text();
    let c = cors_lines();
    lemma_count_concat(seq![c[0]], seq![c[1]]);
    lemma_count_one(c[0]);
    lemma_count_one(c[1]);
    let p = preflight_headers();
    assert(p.take(2) =~= cors_lines());
    lemma_count_concat(c, seq![content_length_line(0)]);
    lemma_count_one(content_length_line(0));
    assert forall|k: int|
        0 <= k < p.len() && text::starts_with(#[trigger] p[k], content_length_name())
            implies decimal_value(p[k].skip(content_length_name().len() as int)) == 0 by {
        if k < 2 {
            assert(p[k] == c[k]);
        }
    }
    let t = "Content-Type: application/json"@;
    let j = json_headers(n);
    assert(j.take(2) =~= cors_lines());
    assert(seq![t, content_length_line(n)] =~= seq![t] + seq![content_length_line(n)]);
    lemma_count_concat(seq![t], seq![content_length_line(n)]);
    lemma_count_one(t);
    lemma_count_one(content_length_line(n));
    lemma_count_concat(c, seq![t, content_length_line(n)]);
    assert forall|k: int|
        0 <= k < j.len() && text::starts_with(#[trigger] j[k], content_length_name())
            implies decimal_value(j[k].skip(content_length_name().len() as int)) == n by {
        if k < 2 {
            assert(j[k] == c[k]);
        } else if k == 2 {
            assert(j[k] == t);
        }
    }
}

/// The preflight answer, and every JSON answer, carries the CORS headers
/// and ends with its body.
pub proof fn lemma_answer_layout(status: Seq<char>, body: Seq<char>)
    ensures
        text::contains_piece(preflight_text(), header_text(cors_lines())),
        text::contains_piece(json_response_text(status, body), header_text(cors_lines())),
        ({
            let r = json_response_text(status, body);
            r.len() >= body.len() && r.skip(r.len() - body.len()) == body
        }),
{
    let c = header_text(cors_lines());
    lemma_header_text_concat(cors_lines(), seq![content_length_line(0)]);
    let p = "HTTP/1.1 204 No Content"@ + "\r\n"@;
    assert(preflight_text().subrange(p.len() as int, (p.len() + c.len()) as int) =~= c);
    let n = vstd::utf8::encode_utf8(body).len();
    lemma_header_text_concat(cors_lines(), seq!["Content-Type: application/json"@, content_length_line(n)]);
    let r = json_response_text(status, body);
    let q = status + "\r\n"@;
    assert(r.subrange(q.len() as int, (q.len() + c.len()) as int) =~= c);
    assert(r.skip(r.len() - body.len()) =~= body);
}

fn push_line(out: &mut String, line: &str)
    ensures
        final(out)@ == old(out)@ + line@ + "\r\n"@,
{
    out.append(line);
    out.append("\r\n");
}

fn push_cors(out: &mut String)
    ensures
        final(out)@ == old(out)@ + header_text(cors_lines()),
{
    let ghost before = out@;
    push_line(out, "Access-Control-Allow-Origin: *");
    push_line(out, "Access-Control-Allow-Methods: GET, OPTIONS");
    proof {
        lemma_cors_text();
        assert(out@ =~= before + header_text(cors_lines()));
    }
}

fn push_content_length(out: &mut String, n: usize)
    ensures
        final(out)@ == old(out)@ + content_length_line(n as nat) + "\r\n"@,
{
    out.append("Content-Length: ");
    push_decimal(out, n);
    out.append("\r\n");
    assert(out@ =~= old(out)@ + content_length_line(n as nat) + "\r\n"@);
}

/// The answer to a preflight request.
pub fn preflight_response() -> (r: String)
    ensures
        r@ == preflight_text(),
{
    let mut out = String::new();
    push_line(&mut out, "HTTP/1.1 204 No Content");
    let ghost after_status = out@;
    push_cors(&mut out);
    push_content_length(&mut out, 0);
    out.append("\r\n");
    proof {
        lemma_header_text_concat(cors_lines(), seq![content_length_line(0)]);
        lemma_header_text_one(content_length_line(0));
        assert(out@ =~= preflight_text());
    }
    out
}

/// An answer with the status line `status` (without its line end) and the
/// JSON body `body`.
pub fn json_response(status: &str, body: &str) -> (r: String)
    ensures
        r@ == json_response_text(status@, body@),
{
    let mut out = String::new();
    push_line(&mut out, status);
    push_cors(&mut out);
    push_line(&mut out, "Content-Type: application/json");
    let body_bytes = body.as_bytes();
    push_content_length(&mut out, body_bytes.len());
    out.append("\r\n");
    out.append(body);
    proof {
        let n = vstd::utf8::encode_utf8(body@).len();
        let t = "Content-Type: application/json"@;
        lemma_header_text_concat(cors_lines(), seq![t, content_length_line(n)]);
        assert(seq![t, content_length_line(n)] =~= seq![t] + seq![content_length_line(n)]);
        lemma_header_text_concat(seq![t], seq![content_length_line(n)]);
        lemma_header_text_one(t);
        lemma_header_text_one(content_length_line(n));
        assert(out@ =~= json_response_text(status@, body@));
    }
    out
}

/// The JSON body of the report for `hostname` and `macs`.
pub fn report_json(hostname: &str, macs: &[MacInfo]) -> (r: String)
    ensures
        r@ == report_body(hostname@, report::macs_json(report::records(macs@))),
{
    let list = macs_to_json(macs);
    let mut out = String::new();
    out.append("{\"hostname\":\"");
    out.append(hostname);
    out.append("\",\"macs\":");
    out.append(list.as_str());
    out.append("}");
    assert(out@ =~= report_body(hostname@, report::macs_json(report::records(macs@))));
    out
}

/// The answer to a request for `/mac`.
pub fn report_response(hostname: &str, macs: &[MacInfo]) -> (r: String)
    ensures
        r@ == json_response_text(
            ok_status(),
            report_body(hostname@, report::macs_json(report::records(macs@))),
        ),
{
    let body = report_json(hostname, macs);
    json_response("HTTP/1.1 200 OK", body.as_str())
}

/// The answer to a request for an unknown target.
pub fn not_found_response() -> (r: String)
    ensures
        r@ == json_response_text(not_found_status(), not_found_body()),
{
    json_response("HTTP/1.1 404 Not Found", "{\"error\":\"Not found\"}")
}

} // verus!
