//! What the command-line tool prints, line by line.

use crate::bytes::{byte_len, count_bytes, trim_str};
use crate::client::{truth, write_truth, BatchItem, MdsClient};
use crate::config::{normalized_number, Config, ConfigView, DEFAULT_BASE_URL};
use crate::decimal::{decimal, push_decimal};
use crate::duration::{duration_millis, duration_nanos, whole_millis};
use crate::error::{quoted, span_text, write_span, Result};
use crate::form::hex_value;
use crate::message::{Message, MessageView};
use crate::observer::Event;
use crate::response::Response;
use crate::text::{chars_of, opt_text, same, str_texts, texts, trimmed};
use vstd::prelude::*;

verus! {

// ---------------------------------------------------------------------------
// Secrets
// ---------------------------------------------------------------------------

/// A secret with all but its last four characters starred out, and all of it
/// where it has no more than four.
pub open spec fn masked(secret: Seq<char>) -> Seq<char> {
    Seq::new(
        secret.len(),
        |i: int|
            if secret.len() <= 4 || i < secret.len() - 4 {
                '*'
            } else {
                secret[i]
            },
    )
}

/// Shows enough of the key to tell two accounts apart, without printing it.
pub fn mask(secret: &str) -> (r: String)
    ensures
        r@ == masked(secret@),
{
    let chars = chars_of(secret);
    let n: usize = chars.len();
    let mut out = String::new();
    let mut i: usize = 0;
    while i < n
        invariant
            i <= n,
            n == chars@.len(),
            chars@ == secret@,
            out@ == masked(secret@).take(i as int),
        decreases n - i,
    {
        if n <= 4 || i < n - 4 {
            out.push('*');
        } else {
            out.push(chars[i]);
        }
        i += 1;
        assert(out@ =~= masked(secret@).take(i as int));
    }
    assert(masked(secret@).take(n as int) =~= masked(secret@));
    out
}

// ---------------------------------------------------------------------------
// JSON strings
// ---------------------------------------------------------------------------

/// A hexadecimal digit, in small letters.
pub open spec fn small_hex_digit(n: int) -> char {
    if n < 10 {
        (0x30 + n) as char
    } else {
        (0x61 + n - 10) as char
    }
}

/// How a character is written inside a JSON string.
pub open spec fn json_char(c: char) -> Seq<char> {
    let u = c as u32;
    if c == '"' {
        seq!['\\', '"']
    } else if c == '\\' {
        seq!['\\', '\\']
    } else if c == '\n' {
        seq!['\\', 'n']
    } else if c == '\r' {
        seq!['\\', 'r']
    } else if c == '\t' {
        seq!['\\', 't']
    } else if u < 0x20 {
        seq!['\\', 'u', '0', '0', small_hex_digit(u as int / 16), small_hex_digit(u as int % 16)]
    } else {
        seq![c]
    }
}

/// How a text is written inside a JSON string.
pub open spec fn json_chars(s: Seq<char>) -> Seq<char>
    decreases s.len(),
{
    if s.len() == 0 {
        Seq::empty()
    } else {
        json_chars(s.drop_last()) + json_char(s.last())
    }
}

/// A text as a JSON string.
pub open spec fn json_quoted(s: Seq<char>) -> Seq<char> {
    seq!['"'] + json_chars(s) + seq!['"']
}

/// An optional text as a JSON string, or `null`.
pub open spec fn json_opt(s: Option<Seq<char>>) -> Seq<char> {
    match s {
        Some(t) => json_quoted(t),
        None => "null"@,
    }
}

fn write_hex_digit(n: u8) -> (r: char)
    requires
        n < 16,
    ensures
        r == small_hex_digit(n as int),
{
    if n < 10 {
        (0x30 + n) as char
    } else {
        (0x61 + (n - 10)) as char
    }
}

/// Minimal JSON string escaping.
pub fn q(s: &str) -> (r: String)
    ensures
        r@ == json_quoted(s@),
{
    let chars = chars_of(s);
    let mut out = String::new();
    out.push('"');
    let mut i: usize = 0;
    assert(out@ =~= seq!['"'] + json_chars(s@.take(0)));
    while i < chars.len()
        invariant
            i <= chars@.len(),
            chars@ == s@,
            out@ == seq!['"'] + json_chars(s@.take(i as int)),
        decreases chars@.len() - i,
    {
        let c = chars[i];
        let code: u32 = c as u32;
        let ghost before = out@;
        assert(s@.take(i + 1).drop_last() =~= s@.take(i as int));
        assert(s@.take(i + 1).last() == c);
        if c == '"' {
            out.push('\\');
            out.push('"');
        } else if c == '\\' {
            out.push('\\');
            out.push('\\');
        } else if c == '\n' {
            out.push('\\');
            out.push('n');
        } else if c == '\r' {
            out.push('\\');
            out.push('r');
        } else if c == '\t' {
            out.push('\\');
            out.push('t');
        } else if code < 0x20 {
            let u: u8 = code as u8;
            let high = write_hex_digit(u / 16);
            let low = write_hex_digit(u % 16);
            assert(json_char(c) == seq!['\\', 'u', '0', '0', high, low]);
            out.push('\\');
            out.push('u');
            out.push('0');
            out.push('0');
            out.push(high);
            out.push(low);
        } else {
            out.push(c);
        }
        assert(out@ =~= before + json_char(c));
        assert(out@ =~= seq!['"'] + json_chars(s@.take(i + 1)));
        i += 1;
    }
    assert(s@.take(i as int) =~= s@);
    out.push('"');
    assert(out@ =~= json_quoted(s@));
    out
}

/// A JSON string, or `null`.
pub fn opt_q(s: &Option<String>) -> (r: String)
    ensures
        r@ == json_opt(opt_text(*s)),
{
    match s {
        Some(t) => q(t),
        None => "null".to_string(),
    }
}

/// The text, or `-`.
pub open spec fn or_dash(s: Option<Seq<char>>) -> Seq<char> {
    match s {
        Some(t) => t,
        None => "-"@,
    }
}

fn write_or_dash(s: &Option<String>) -> (r: &str)
    ensures
        r@ == or_dash(opt_text(*s)),
{
    match s {
        Some(t) => t.as_str(),
        None => "-",
    }
}

// ---------------------------------------------------------------------------
// check
// ---------------------------------------------------------------------------

/// The resolved configuration, as one JSON line or as human-readable ones. The
/// API key is masked.
pub open spec fn check_text(config: ConfigView, json: bool) -> Seq<Seq<char>> {
    let endpoint = config.effective_base_url();
    let is_default = endpoint == DEFAULT_BASE_URL@;
    if json {
        seq![
            "{\"ok\":true,\"base_url\":"@ + json_quoted(endpoint) + ",\"base_url_is_default\":"@
                + truth(is_default) + ",\"username\":"@ + json_quoted(config.username)
                + ",\"sender_id\":"@ + json_quoted(config.sender_id) + ",\"route\":"@ + json_quoted(
                config.route.text(),
            ) + ",\"template_id\":"@ + json_opt(config.template_id) + ",\"entity_id\":"@ + json_opt(
                config.entity_id,
            ) + ",\"country_code\":"@ + json_opt(config.default_country_code) + ",\"api_key\":"@
                + json_quoted(masked(config.api_key)) + "}"@,
        ]
    } else {
        seq![
            "configuration OK"@,
            "  base_url     "@ + endpoint + (if is_default {
                "  (default)"@
            } else {
                ""@
            }),
            "  username     "@ + config.username,
            "  api_key      "@ + masked(config.api_key),
            "  sender_id    "@ + config.sender_id,
            "  route        "@ + config.route.text(),
            "  template_id  "@ + or_dash(config.template_id),
            "  entity_id    "@ + or_dash(config.entity_id),
            "  country_code "@ + or_dash(config.default_country_code),
        ]
    }
}

fn labelled(label: &str, value: &str) -> (r: String)
    ensures
        r@ == label@ + value@,
{
    let mut out = label.to_string();
    out.append(value);
    out
}

/// What `check` prints.
pub fn check_lines(config: &Config, json: bool) -> (r: Vec<String>)
    ensures
        texts(r@) == check_text(config@, json),
{
    let endpoint = config.effective_base_url();
    let is_default = same(&chars_of(endpoint), &chars_of(DEFAULT_BASE_URL));
    let mut out: Vec<String> = Vec::new();
    if json {
        let mut line = "{\"ok\":true,\"base_url\":".to_string();
        line.append(q(endpoint).as_str());
        line.append(",\"base_url_is_default\":");
        line.append(write_truth(is_default));
        line.append(",\"username\":");
        line.append(q(&config.username).as_str());
        line.append(",\"sender_id\":");
        line.append(q(&config.sender_id).as_str());
        line.append(",\"route\":");
        line.append(q(config.route.as_str()).as_str());
        line.append(",\"template_id\":");
        line.append(opt_q(&config.template_id).as_str());
        line.append(",\"entity_id\":");
        line.append(opt_q(&config.entity_id).as_str());
        line.append(",\"country_code\":");
        line.append(opt_q(&config.default_country_code).as_str());
        line.append(",\"api_key\":");
        line.append(q(mask(&config.api_key).as_str()).as_str());
        line.append("}");
        out.push(line);
    } else {
        let mut url = labelled("  base_url     ", endpoint);
        url.append(
            if is_default {
                "  (default)"
            } else {
                ""
            },
        );
        out.push("configuration OK".to_string());
        out.push(url);
        out.push(labelled("  username     ", &config.username));
        out.push(labelled("  api_key      ", mask(&config.api_key).as_str()));
        out.push(labelled("  sender_id    ", &config.sender_id));
        out.push(labelled("  route        ", config.route.as_str()));
        out.push(labelled("  template_id  ", write_or_dash(&config.template_id)));
        out.push(labelled("  entity_id    ", write_or_dash(&config.entity_id)));
        out.push(labelled("  country_code ", write_or_dash(&config.default_country_code)));
    }
    assert(texts(out@) =~= check_text(config@, json));
    out
}

// ---------------------------------------------------------------------------
// normalize
// ---------------------------------------------------------------------------

/// The message of the error for a number that is refused.
pub open spec fn number_error(number: Seq<char>, reason: Seq<char>) -> Seq<char> {
    "invalid phone number "@ + quoted(number) + ": "@ + reason
}

/// What a number is normalized to, or the error.
pub open spec fn normalize_text(
    country_code: Option<Seq<char>>,
    number: Seq<char>,
    json: bool,
) -> Seq<char> {
    match normalized_number(country_code, number) {
        Ok(normalized) => if json {
            "{\"input\":"@ + json_quoted(number) + ",\"normalized\":"@ + json_quoted(normalized)
                + "}"@
        } else {
            number + "\t-> "@ + normalized
        },
        Err(reason) => if json {
            "{\"input\":"@ + json_quoted(number) + ",\"error\":"@ + json_quoted(
                number_error(number, reason),
            ) + "}"@
        } else {
            number + "\t-> ERROR: "@ + number_error(number, reason)
        },
    }
}

/// What `normalize` prints for a number.
pub fn normalize_line(client: &MdsClient, number: &str, json: bool) -> (r: String)
    ensures
        r@ == normalize_text(client@.config.default_country_code, number@, json),
{
    match client.normalize(number) {
        Ok(normalized) => if json {
            let mut line = "{\"input\":".to_string();
            line.append(q(number).as_str());
            line.append(",\"normalized\":");
            line.append(q(&normalized).as_str());
            line.append("}");
            line
        } else {
            let mut line = number.to_string();
            line.append("\t-> ");
            line.append(normalized.as_str());
            line
        },
        Err(e) => {
            let message = e.to_string();
            if json {
                let mut line = "{\"input\":".to_string();
                line.append(q(number).as_str());
                line.append(",\"error\":");
                line.append(q(&message).as_str());
                line.append("}");
                line
            } else {
                let mut line = number.to_string();
                line.append("\t-> ERROR: ");
                line.append(message.as_str());
                line
            }
        },
    }
}

/// How many of the first `n` numbers are refused.
pub open spec fn refused(country_code: Option<Seq<char>>, numbers: Seq<Seq<char>>, n: nat) -> nat
    decreases n,
{
    if n == 0 {
        0
    } else if normalized_number(country_code, numbers[n - 1]) is Err {
        refused(country_code, numbers, (n - 1) as nat) + 1
    } else {
        refused(country_code, numbers, (n - 1) as nat)
    }
}

/// What `normalize` prints, and how many numbers are refused.
pub fn normalize_lines(client: &MdsClient, numbers: &Vec<String>, json: bool) -> (r: (
    Vec<String>,
    usize,
))
    ensures
        texts(r.0@) == Seq::new(
            numbers@.len(),
            |i: int|
                normalize_text(client@.config.default_country_code, numbers@[i]@, json),
        ),
        r.1 == refused(client@.config.default_country_code, texts(numbers@), numbers@.len()),
{
    let ghost cc = client@.config.default_country_code;
    let mut out: Vec<String> = Vec::new();
    let mut bad: usize = 0;
    let mut i: usize = 0;
    while i < numbers.len()
        invariant
            i <= numbers@.len(),
            cc == client@.config.default_country_code,
            out@.len() == i,
            bad <= i,
            bad == refused(cc, texts(numbers@), i as nat),
            forall|j: int|
                0 <= j < i ==> (#[trigger] out@[j])@ == normalize_text(cc, numbers@[j]@, json),
        decreases numbers@.len() - i,
    {
        out.push(normalize_line(client, &numbers[i], json));
        if client.normalize(&numbers[i]).is_err() {
            bad += 1;
        }
        i += 1;
    }
    assert(texts(out@) =~= Seq::new(
        numbers@.len(),
        |i: int| normalize_text(client@.config.default_country_code, numbers@[i]@, json),
    ));
    (out, bad)
}

// ---------------------------------------------------------------------------
// Dry runs
// ---------------------------------------------------------------------------

/// The number that a message would go to, or why it would not be sent.
pub open spec fn dry_recipient(country_code: Option<Seq<char>>, number: Seq<char>) -> Seq<char> {
    match normalized_number(country_code, number) {
        Ok(normalized) => normalized,
        Err(reason) => "INVALID ("@ + number_error(number, reason) + ")"@,
    }
}

/// A message that would be sent: one JSON line, or two human-readable ones.
pub open spec fn dry_run_text(config: ConfigView, message: MessageView, json: bool) -> Seq<
    Seq<char>,
> {
    let to = dry_recipient(config.default_country_code, message.to);
    if json {
        seq![
            "{\"dry_run\":true,\"to\":"@ + json_quoted(message.to) + ",\"normalized\":"@
                + json_quoted(to) + ",\"body\":"@ + json_quoted(message.body) + ",\"len\":"@
                + decimal(byte_len(message.body)) + "}"@,
        ]
    } else {
        seq![
            "DRY RUN  "@ + message.to + " -> "@ + to,
            "  body ("@ + decimal(byte_len(message.body)) + " bytes): "@ + message.body,
        ]
    }
}

/// What a dry run prints: the endpoint, the first `n` messages, and no endpoint
/// as JSON.
pub open spec fn dry_run_report(
    config: ConfigView,
    messages: Seq<MessageView>,
    n: nat,
    json: bool,
) -> Seq<Seq<char>>
    decreases n,
{
    if n == 0 {
        if json {
            Seq::empty()
        } else {
            seq!["endpoint: "@ + config.effective_base_url()]
        }
    } else {
        dry_run_report(config, messages, (n - 1) as nat, json) + dry_run_text(
            config,
            messages[n - 1],
            json,
        )
    }
}

fn write_dry_recipient(config: &Config, number: &str) -> (r: String)
    ensures
        r@ == dry_recipient(config@.default_country_code, number@),
{
    match config.normalize(number) {
        Ok(normalized) => normalized,
        Err(e) => {
            let mut out = "INVALID (".to_string();
            out.append(e.to_string().as_str());
            out.append(")");
            out
        },
    }
}

/// What a dry run prints: the report, and the fallback endpoint where there is
/// one, but not among JSON lines.
pub fn dry_run_lines(
    config: &Config,
    messages: &Vec<Message>,
    fallback: &Option<String>,
    json: bool,
) -> (r: Vec<String>)
    ensures
        texts(r@) == dry_run_report(
            config@,
            Seq::new(messages@.len(), |i: int| messages@[i]@),
            messages@.len(),
            json,
        ) + (match *fallback {
            Some(url) if !json => seq!["fallback: "@ + url@],
            _ => Seq::empty(),
        }),
{
    let ghost all = Seq::new(messages@.len(), |i: int| messages@[i]@);
    let mut out: Vec<String> = Vec::new();
    if !json {
        out.push(labelled("endpoint: ", config.effective_base_url()));
    }
    assert(texts(out@) =~= dry_run_report(config@, all, 0, json));
    let mut i: usize = 0;
    while i < messages.len()
        invariant
            i <= messages@.len(),
            all == Seq::new(messages@.len(), |i: int| messages@[i]@),
            texts(out@) == dry_run_report(config@, all, i as nat, json),
        decreases messages@.len() - i,
    {
        let message = &messages[i];
        let to = write_dry_recipient(config, message.recipient());
        let size: usize = count_bytes(message.body());
        let ghost before = texts(out@);
        if json {
            let mut line = "{\"dry_run\":true,\"to\":".to_string();
            line.append(q(message.recipient()).as_str());
            line.append(",\"normalized\":");
            line.append(q(&to).as_str());
            line.append(",\"body\":");
            line.append(q(message.body()).as_str());
            line.append(",\"len\":");
            push_decimal(&mut line, size as u128);
            line.append("}");
            out.push(line);
        } else {
            let mut first = "DRY RUN  ".to_string();
            first.append(message.recipient());
            first.append(" -> ");
            first.append(to.as_str());
            let mut second = "  body (".to_string();
            push_decimal(&mut second, size as u128);
            second.append(" bytes): ");
            second.append(message.body());
            out.push(first);
            out.push(second);
        }
        assert(texts(out@) =~= before + dry_run_text(config@, all[i as int], json));
        i += 1;
    }
    let ghost report = texts(out@);
    assert(report + Seq::<Seq<char>>::empty() =~= report);
    if !json {
        if let Some(url) = fallback {
            out.push(labelled("fallback: ", url));
            assert(texts(out@) =~= report + seq!["fallback: "@ + url@]);
        }
    }
    out
}

// ---------------------------------------------------------------------------
// Results
// ---------------------------------------------------------------------------

/// A result: one JSON line, or a human-readable one.
pub open spec fn result_text(to: Seq<char>, result: Result<Response>, json: bool) -> Seq<char> {
    match result {
        Ok(r) => if json {
            "{\"ok\":true,\"to\":"@ + json_quoted(r.to@) + ",\"provider\":"@ + json_quoted(
                r.provider@,
            ) + ",\"message_id\":"@ + json_opt(opt_text(r.message_id)) + ",\"status\":"@ + decimal(
                r.status as nat,
            ) + ",\"attempts\":"@ + decimal(r.attempts as nat) + ",\"elapsed_ms\":"@ + decimal(
                duration_millis(r.elapsed),
            ) + ",\"raw\":"@ + json_quoted(r.raw@) + "}"@
        } else {
            "OK    "@ + r.to@ + "  via="@ + r.provider@ + "  id="@ + or_dash(opt_text(r.message_id))
                + "  "@ + decimal(duration_millis(r.elapsed)) + "ms  attempt(s)="@ + decimal(
                r.attempts as nat,
            ) + "  raw="@ + trimmed(r.raw@)
        },
        Err(e) => if json {
            "{\"ok\":false,\"to\":"@ + json_quoted(to) + ",\"error\":"@ + json_quoted(e.text())
                + ",\"retryable\":"@ + truth(e.retryable()) + ",\"fatal\":"@ + truth(e.fatal())
                + "}"@
        } else {
            "FAIL  "@ + to + "  "@ + e.text()
        },
    }
}

/// What is printed for a result.
pub fn result_line(to: &str, result: &Result<Response>, json: bool) -> (line: String)
    ensures
        line@ == result_text(to@, *result, json),
{
    match result {
        Ok(r) => if json {
            let mut line = "{\"ok\":true,\"to\":".to_string();
            line.append(q(&r.to).as_str());
            line.append(",\"provider\":");
            line.append(q(&r.provider).as_str());
            line.append(",\"message_id\":");
            line.append(opt_q(&r.message_id).as_str());
            line.append(",\"status\":");
            push_decimal(&mut line, r.status as u128);
            line.append(",\"attempts\":");
            push_decimal(&mut line, r.attempts as u128);
            line.append(",\"elapsed_ms\":");
            push_decimal(&mut line, whole_millis(r.elapsed));
            line.append(",\"raw\":");
            line.append(q(&r.raw).as_str());
            line.append("}");
            line
        } else {
            let mut line = "OK    ".to_string();
            line.append(r.to.as_str());
            line.append("  via=");
            line.append(r.provider.as_str());
            line.append("  id=");
            line.append(write_or_dash(&r.message_id));
            line.append("  ");
            push_decimal(&mut line, whole_millis(r.elapsed));
            line.append("ms  attempt(s)=");
            push_decimal(&mut line, r.attempts as u128);
            line.append("  raw=");
            line.append(trim_str(&r.raw));
            line
        },
        Err(e) => {
            let message = e.to_string();
            if json {
                let mut line = "{\"ok\":false,\"to\":".to_string();
                line.append(q(to).as_str());
                line.append(",\"error\":");
                line.append(q(&message).as_str());
                line.append(",\"retryable\":");
                line.append(write_truth(e.is_retryable()));
                line.append(",\"fatal\":");
                line.append(write_truth(e.is_fatal()));
                line.append("}");
                line
            } else {
                let mut line = "FAIL  ".to_string();
                line.append(to);
                line.append("  ");
                line.append(message.as_str());
                line
            }
        },
    }
}

/// How many of the first `n` results are failures.
pub open spec fn failures(results: Seq<BatchItem>, n: nat) -> nat
    decreases n,
{
    if n == 0 {
        0
    } else if results[n - 1].1 is Err {
        failures(results, (n - 1) as nat) + 1
    } else {
        failures(results, (n - 1) as nat)
    }
}

/// One line per result, and the number of failures.
pub fn report_lines(results: &Vec<BatchItem>, json: bool) -> (r: (Vec<String>, usize))
    ensures
        texts(r.0@) == Seq::new(
            results@.len(),
            |i: int| result_text(results@[i].0@, results@[i].1, json),
        ),
        r.1 == failures(results@, results@.len()),
        r.1 <= results@.len(),
        r.1 == 0 <==> (forall|i: int| 0 <= i < results@.len() ==> (#[trigger] results@[i]).1 is Ok),
{
    let mut out: Vec<String> = Vec::new();
    let mut failed: usize = 0;
    let mut i: usize = 0;
    while i < results.len()
        invariant
            i <= results@.len(),
            out@.len() == i,
            failed <= i,
            failed == failures(results@, i as nat),
            failed == 0 <==> (forall|j: int| 0 <= j < i ==> (#[trigger] results@[j]).1 is Ok),
            forall|j: int|
                0 <= j < i ==> (#[trigger] out@[j])@ == result_text(
                    results@[j].0@,
                    results@[j].1,
                    json,
                ),
        decreases results@.len() - i,
    {
        out.push(result_line(&results[i].0, &results[i].1, json));
        if results[i].1.is_err() {
            assert(results@[i as int].1 is Err);
            failed += 1;
        }
        i += 1;
    }
    assert(texts(out@) =~= Seq::new(
        results@.len(),
        |i: int| result_text(results@[i].0@, results@[i].1, json),
    ));
    (out, failed)
}

/// How many of the messages were sent, e.g. `2/3 sent`. Not among JSON lines,
/// and not where there was nothing to send.
pub fn sent_line(total: usize, failed: usize, json: bool) -> (r: Option<String>)
    requires
        failed <= total,
    ensures
        opt_text(r) == (if json || total == 0 {
            None
        } else {
            Some(decimal((total - failed) as nat) + "/"@ + decimal(total as nat) + " sent"@)
        }),
{
    if json || total == 0 {
        return None;
    }
    let mut out = String::new();
    push_decimal(&mut out, (total - failed) as u128);
    assert(out@ =~= decimal((total - failed) as nat));
    out.append("/");
    push_decimal(&mut out, total as u128);
    out.append(" sent");
    Some(out)
}

// ---------------------------------------------------------------------------
// Progress
// ---------------------------------------------------------------------------

/// The first `n` names, in the order in which the providers are tried.
pub open spec fn arrows(list: Seq<Seq<char>>, n: nat) -> Seq<char>
    decreases n,
{
    if n == 0 {
        Seq::empty()
    } else if n == 1 {
        list[0]
    } else {
        arrows(list, (n - 1) as nat) + " -> "@ + list[n - 1]
    }
}

/// What is about to be sent, and through which providers where there are
/// several.
pub open spec fn banner_text(total: nat, concurrency: nat, providers: Seq<Seq<char>>) -> Seq<
    char,
> {
    let start = "sending "@ + decimal(total) + " message(s) at concurrency "@ + decimal(
        concurrency,
    );
    if providers.len() == 0 {
        start + "..."@
    } else {
        start + " via "@ + arrows(providers, providers.len()) + "..."@
    }
}

/// What is printed before the first send, unless only results are to be.
/// `providers` are those of a failover chain, and none without one.
pub fn banner(
    total: usize,
    concurrency: usize,
    providers: &Vec<&str>,
    quiet: bool,
    json: bool,
) -> (r: Option<String>)
    ensures
        opt_text(r) == (if quiet || json {
            None
        } else {
            Some(banner_text(total as nat, concurrency as nat, str_texts(providers@)))
        }),
{
    if quiet || json {
        return None;
    }
    let ghost all = str_texts(providers@);
    let mut joined = String::new();
    let mut i: usize = 0;
    while i < providers.len()
        invariant
            i <= providers@.len(),
            all == str_texts(providers@),
            joined@ == arrows(all, i as nat),
        decreases providers@.len() - i,
    {
        if i > 0 {
            joined.append(" -> ");
        }
        joined.append(providers[i]);
        assert(joined@ =~= arrows(all, (i + 1) as nat));
        i += 1;
    }
    let mut out = "sending ".to_string();
    push_decimal(&mut out, total as u128);
    out.append(" message(s) at concurrency ");
    push_decimal(&mut out, concurrency as u128);
    if providers.len() > 0 {
        out.append(" via ");
        out.append(joined.as_str());
    }
    out.append("...");
    Some(out)
}

/// An event of the send lifecycle; an acceptance is not traced, the result says
/// it.
pub open spec fn trace_text(event: Event<'_>) -> Option<Seq<char>> {
    match event {
        Event::Attempt { provider, to, attempt } => Some(
            "  ["@ + provider@ + "] attempt "@ + decimal(attempt as nat) + " -> "@ + to@,
        ),
        Event::Retrying { provider, attempt, delay, error, .. } => Some(
            "  ["@ + provider@ + "] attempt "@ + decimal(attempt as nat) + " failed ("@
                + error.text() + "); retrying in "@ + span_text(duration_nanos(delay)),
        ),
        Event::Slow { provider, to, elapsed } => Some(
            "  ["@ + provider@ + "] SLOW "@ + to@ + " took "@ + span_text(duration_nanos(elapsed)),
        ),
        Event::Failed { provider, to, error } => Some(
            "  ["@ + provider@ + "] gave up on "@ + to@ + ": "@ + error.text(),
        ),
        Event::FailingOver { from, to_provider, error, .. } => Some(
            "  ["@ + from@ + "] -> ["@ + to_provider@ + "]: "@ + error.text(),
        ),
        Event::Accepted { .. } => None,
    }
}

/// What `--trace` prints for an event.
pub fn trace_line(event: &Event<'_>) -> (r: Option<String>)
    ensures
        opt_text(r) == trace_text(*event),
{
    let mut out = "  [".to_string();
    match event {
        Event::Attempt { provider, to, attempt } => {
            out.append(provider);
            out.append("] attempt ");
            push_decimal(&mut out, *attempt as u128);
            out.append(" -> ");
            out.append(to);
            Some(out)
        },
        Event::Retrying { provider, attempt, delay, error, .. } => {
            out.append(provider);
            out.append("] attempt ");
            push_decimal(&mut out, *attempt as u128);
            out.append(" failed (");
            out.append(error.to_string().as_str());
            out.append("); retrying in ");
            out.append(write_span(*delay).as_str());
            Some(out)
        },
        Event::Slow { provider, to, elapsed } => {
            out.append(provider);
            out.append("] SLOW ");
            out.append(to);
            out.append(" took ");
            out.append(write_span(*elapsed).as_str());
            Some(out)
        },
        Event::Failed { provider, to, error } => {
            out.append(provider);
            out.append("] gave up on ");
            out.append(to);
            out.append(": ");
            out.append(error.to_string().as_str());
            Some(out)
        },
        Event::FailingOver { from, to_provider, error, .. } => {
            out.append(from);
            out.append("] -> [");
            out.append(to_provider);
            out.append("]: ");
            out.append(error.to_string().as_str());
            Some(out)
        },
        Event::Accepted { .. } => None,
    }
}

// ---------------------------------------------------------------------------
// Laws
// ---------------------------------------------------------------------------

/// Of a masked secret only the length and the last four characters show: two
/// secrets that agree in these are masked alike, and of a secret of up to four
/// characters nothing but the length shows.
pub proof fn lemma_mask_shows_only_the_tail(a: Seq<char>, b: Seq<char>)
    requires
        a.len() == b.len(),
        a.len() > 4 ==> a.skip(a.len() - 4) == b.skip(b.len() - 4),
    ensures
        masked(a) == masked(b),
{
    assert forall|i: int| 0 <= i < a.len() implies #[trigger] masked(a)[i] == masked(b)[i] by {
        if a.len() > 4 && i >= a.len() - 4 {
            let k = i - (a.len() - 4);
            assert(a.skip(a.len() - 4)[k] == a[i]);
            assert(b.skip(b.len() - 4)[k] == b[i]);
        }
    }
    assert(masked(a) =~= masked(b));
}

/// The check report shows no more of the API key than its mask.
pub proof fn lemma_check_hides_the_key(config: ConfigView, key: Seq<char>, json: bool)
    requires
        masked(config.api_key) == masked(key),
    ensures
        check_text(config, json) == check_text(ConfigView { api_key: key, ..config }, json),
{
}

/// `s` starts with `\u` and four hexadecimal digits.
pub open spec fn code_first(s: Seq<char>) -> bool {
    &&& s.len() > 5
    &&& s[0] == '\\'
    &&& s[1] == 'u'
    &&& hex_value(s[2]) is Some
    &&& hex_value(s[3]) is Some
    &&& hex_value(s[4]) is Some
    &&& hex_value(s[5]) is Some
}

/// The character that a short JSON escape stands for.
pub open spec fn json_short(c: char) -> char {
    if c == 'n' {
        '\n'
    } else if c == 'r' {
        '\r'
    } else if c == 't' {
        '\t'
    } else {
        c
    }
}

/// The text that a JSON reader finds between the quotes of a string.
pub open spec fn json_read(s: Seq<char>) -> Seq<char>
    decreases s.len(),
{
    if s.len() == 0 {
        Seq::empty()
    } else if code_first(s) {
        seq![
            (hex_value(s[2])->Some_0 * 4096 + hex_value(s[3])->Some_0 * 256
                + hex_value(s[4])->Some_0 * 16 + hex_value(s[5])->Some_0) as char,
        ] + json_read(s.skip(6))
    } else if s[0] == '\\' && s.len() > 1 {
        seq![json_short(s[1])] + json_read(s.skip(2))
    } else {
        seq![s[0]] + json_read(s.drop_first())
    }
}

/// The text can stand between the quotes of a JSON string: a backslash comes
/// only with the four hexadecimal digits or the one character of an escape, a
/// quote only as such a character, and no control character comes at all.
pub open spec fn json_sound(s: Seq<char>) -> bool
    decreases s.len(),
{
    if s.len() == 0 {
        true
    } else if code_first(s) {
        json_sound(s.skip(6))
    } else if s[0] == '\\' {
        s.len() > 1 && (s[1] == '"' || s[1] == '\\' || s[1] == 'n' || s[1] == 'r' || s[1] == 't')
            && json_sound(s.skip(2))
    } else {
        s[0] != '"' && s[0] as u32 >= 0x20 && json_sound(s.drop_first())
    }
}

proof fn lemma_json_chars_front(c: char, s: Seq<char>)
    ensures
        json_chars(seq![c] + s) == json_char(c) + json_chars(s),
    decreases s.len(),
{
    let whole = seq![c] + s;
    if s.len() == 0 {
        assert(whole.drop_last() =~= Seq::<char>::empty());
        assert(json_chars(whole) =~= json_char(c) + json_chars(s)) by {
            reveal_with_fuel(json_chars, 2);
        }
    } else {
        assert(whole.drop_last() =~= seq![c] + s.drop_last());
        lemma_json_chars_front(c, s.drop_last());
        assert(json_chars(whole) =~= json_char(c) + json_chars(s));
    }
}

proof fn lemma_json_read_char(c: char, rest: Seq<char>)
    ensures
        json_read(json_char(c) + rest) == seq![c] + json_read(rest),
        json_sound(rest) ==> json_sound(json_char(c) + rest),
{
    let s = json_char(c) + rest;
    let u = c as u32;
    if c == '"' || c == '\\' || c == '\n' || c == '\r' || c == '\t' {
        assert(s.skip(2) =~= rest);
        assert(s[0] == '\\');
        assert(s[1] == json_char(c)[1]);
    } else if u < 0x20 {
        assert(s.skip(6) =~= rest);
        assert(s[2] == '0' && s[3] == '0');
        assert(s[4] == small_hex_digit(u as int / 16));
        assert(s[5] == small_hex_digit(u as int % 16));
        assert(hex_value(s[4]) == Some(u as int / 16));
        assert(hex_value(s[5]) == Some(u as int % 16));
    } else {
        assert(s.drop_first() =~= rest);
        assert(s[0] == c);
    }
}

/// A JSON reader finds in a quoted text the text itself, and all of it may stand
/// in a string.
pub proof fn lemma_quoted_text_reads_back(s: Seq<char>)
    ensures
        json_read(json_chars(s)) == s,
        json_sound(json_chars(s)),
    decreases s.len(),
{
    if s.len() > 0 {
        let rest = s.drop_first();
        lemma_quoted_text_reads_back(rest);
        assert(seq![s[0]] + rest =~= s);
        lemma_json_chars_front(s[0], rest);
        lemma_json_read_char(s[0], json_chars(rest));
    }
}

/// Where a JSON string ends whose opening quote stands before `s`: at the first
/// quote that no backslash goes before as part of an escape.
pub open spec fn json_end(s: Seq<char>) -> Option<int>
    decreases s.len(),
{
    if s.len() == 0 {
        None
    } else if s[0] == '"' {
        Some(0)
    } else if s[0] == '\\' && s.len() > 1 {
        match json_end(s.skip(2)) {
            Some(i) => Some(i + 2),
            None => None,
        }
    } else {
        match json_end(s.drop_first()) {
            Some(i) => Some(i + 1),
            None => None,
        }
    }
}

/// A hexadecimal digit ends no string.
proof fn lemma_digit_ends_nothing(s: Seq<char>)
    requires
        s.len() > 0,
        hex_value(s[0]) is Some,
    ensures
        json_end(s) == (match json_end(s.drop_first()) {
            Some(i) => Some(i + 1),
            None => None,
        }),
{
}

proof fn lemma_sound_text_ends_nothing(text: Seq<char>, rest: Seq<char>)
    requires
        json_sound(text),
    ensures
        json_end(text + seq!['"'] + rest) == Some(text.len() as int),
    decreases text.len(),
{
    let s = text + seq!['"'] + rest;
    if text.len() == 0 {
        assert(s[0] == '"');
    } else if code_first(text) {
        lemma_sound_text_ends_nothing(text.skip(6), rest);
        assert(s.skip(6) =~= text.skip(6) + seq!['"'] + rest);
        assert(s.skip(2).drop_first() =~= s.skip(3));
        assert(s.skip(3).drop_first() =~= s.skip(4));
        assert(s.skip(4).drop_first() =~= s.skip(5));
        assert(s.skip(5).drop_first() =~= s.skip(6));
        lemma_digit_ends_nothing(s.skip(2));
        lemma_digit_ends_nothing(s.skip(3));
        lemma_digit_ends_nothing(s.skip(4));
        lemma_digit_ends_nothing(s.skip(5));
    } else if text[0] == '\\' {
        lemma_sound_text_ends_nothing(text.skip(2), rest);
        assert(s.skip(2) =~= text.skip(2) + seq!['"'] + rest);
    } else {
        lemma_sound_text_ends_nothing(text.drop_first(), rest);
        assert(s.drop_first() =~= text.drop_first() + seq!['"'] + rest);
    }
}

/// Nothing in a quoted text can end the string early: whatever follows, the
/// string ends at the quote behind the text.
pub proof fn lemma_quoted_text_ends_at_its_quote(s: Seq<char>, rest: Seq<char>)
    ensures
        json_end(json_chars(s) + seq!['"'] + rest) == Some(json_chars(s).len() as int),
{
    lemma_quoted_text_reads_back(s);
    lemma_sound_text_ends_nothing(json_chars(s), rest);
}

} // verus!
