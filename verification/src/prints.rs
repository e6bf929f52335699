//! What the tool prints.
//!
//! The laws of its lines: that they show what they are about, each value behind
//! its own label.

use crate::bytes::byte_len;
use crate::client::{route_debug, truth, BatchItem, BuilderView, ClientView};
use crate::config::{normalized_number, ConfigView, RouteView};
use crate::decimal::decimal;
use crate::duration::duration_nanos;
use crate::error::{quoted, span_text, summary, Error, ProviderFailure};
use crate::failover::{chain_debug_text, names, quoted_list};
use crate::message::MessageView;
use crate::observer::Event;
use crate::output::{
    arrows, banner_text, check_text, dry_recipient, dry_run_report, dry_run_text, failures,
    json_char, json_chars, json_opt, json_quoted, masked, normalize_text, refused, result_text, trace_text,
};
use crate::response::Response;
use crate::search::{contains, lemma_contains_trans, occurs_at};
use crate::text::{opt_text, trimmed};
use vstd::prelude::*;

verus! {

/// A stretch of a text stands in it.
proof fn lemma_shown(text: Seq<char>, before: Seq<char>, part: Seq<char>, after: Seq<char>)
    requires
        text == before + part + after,
    ensures
        contains(text, part),
{
    let n = before.len() as int;
    assert(text.subrange(n, n + part.len()) =~= part);
    assert(occurs_at(text, part, n));
}

/// What stands in a text stands in it with something behind.
proof fn lemma_still_shown(text: Seq<char>, after: Seq<char>, part: Seq<char>)
    requires
        contains(text, part),
    ensures
        contains(text + after, part),
{
    let i = choose|i: int| occurs_at(text, part, i);
    assert((text + after).subrange(i, i + part.len()) =~= text.subrange(i, i + part.len()));
    assert(occurs_at(text + after, part, i));
}

/// All of the parts stand in the text.
spec fn all_shown(text: Seq<char>, parts: Seq<Seq<char>>) -> bool {
    forall|i: int| 0 <= i < parts.len() ==> contains(text, #[trigger] parts[i])
}

/// A label and its value, written behind a text, stand in it so, and what stood
/// there before still does.
proof fn lemma_also_shown(
    text: Seq<char>,
    parts: Seq<Seq<char>>,
    label: Seq<char>,
    value: Seq<char>,
)
    requires
        all_shown(text, parts),
    ensures
        all_shown(text + label + value, parts.push(label + value)),
{
    let longer = text + label + value;
    let more = parts.push(label + value);
    assert forall|i: int| 0 <= i < more.len() implies contains(longer, #[trigger] more[i]) by {
        if i < parts.len() {
            assert(contains(text, parts[i]));
            lemma_still_shown(text, label, parts[i]);
            lemma_still_shown(text + label, value, parts[i]);
        } else {
            assert(longer =~= text + (label + value) + Seq::<char>::empty());
            lemma_shown(longer, text, label + value, Seq::empty());
        }
    }
}

/// What stands in a text still does with something behind.
proof fn lemma_all_still_shown(text: Seq<char>, parts: Seq<Seq<char>>, after: Seq<char>)
    requires
        all_shown(text, parts),
    ensures
        all_shown(text + after, parts),
{
    assert forall|i: int| 0 <= i < parts.len() implies contains(
        text + after,
        #[trigger] parts[i],
    ) by {
        lemma_still_shown(text, after, parts[i]);
    }
}

/// A label and its value are all of the text.
proof fn lemma_first_shown(label: Seq<char>, value: Seq<char>)
    ensures
        all_shown(label + value, seq![label + value]),
{
    let text = label + value;
    assert(text =~= Seq::<char>::empty() + text + Seq::<char>::empty());
    lemma_shown(text, Seq::empty(), text, Seq::empty());
}

/// A masked secret is as long as the secret. Its last four characters show if it
/// has more than four, and everything else is stars.
pub proof fn lemma_what_a_mask_shows(secret: Seq<char>, i: int)
    requires
        0 <= i < secret.len(),
    ensures
        masked(secret).len() == secret.len(),
        secret.len() <= 4 ==> masked(secret)[i] == '*',
        secret.len() > 4 && i + 4 < secret.len() ==> masked(secret)[i] == '*',
        secret.len() > 4 && i + 4 >= secret.len() ==> masked(secret)[i] == secret[i],
{
}

/// A text that is there is a JSON string, between two quotes, and one that is
/// not is `null`.
pub proof fn lemma_optional_texts_as_json(s: Option<Seq<char>>)
    ensures
        s is None ==> json_opt(s) == "null"@,
        s matches Some(t) ==> json_opt(s) == json_quoted(t),
        s matches Some(t) ==> json_quoted(t).len() >= 2 && json_quoted(t)[0] == '"' && json_quoted(
            t,
        ).last() == '"',
{
}

/// Inside a JSON string, quotes, backslashes, line breaks, carriage returns and
/// tabs are escaped by a backslash, and other control characters by their code.
/// Everything else is written as it is.
pub proof fn lemma_how_json_strings_are_written(s: Seq<char>, c: char)
    ensures
        json_quoted(s) == seq!['"'] + json_chars(s) + seq!['"'],
        json_chars(Seq::empty()).len() == 0,
        json_chars(s.push(c)) == json_chars(s) + json_char(c),
        c == '"' ==> json_char(c) == seq!['\\', '"'],
        c == '\\' ==> json_char(c) == seq!['\\', '\\'],
        c == '\n' ==> json_char(c) == seq!['\\', 'n'],
        c == '\r' ==> json_char(c) == seq!['\\', 'r'],
        c == '\t' ==> json_char(c) == seq!['\\', 't'],
        c < ' ' && c != '\n' && c != '\r' && c != '\t' ==> json_char(c) == seq![
            '\\',
            'u',
            '0',
            '0',
            "0123456789abcdef"@[c as int / 16],
            "0123456789abcdef"@[c as int % 16],
        ],
        c >= ' ' && c != '"' && c != '\\' ==> json_char(c) == seq![c],
{
    reveal_strlit("0123456789abcdef");
    assert(s.push(c).drop_last() =~= s);
}

// ---------------------------------------------------------------------------
// Results
// ---------------------------------------------------------------------------

/// The JSON line of a send that was accepted shows where it went, who took it,
/// the id, the status, the attempts, the time and the answer.
pub proof fn lemma_an_accepted_send_as_json(to: Seq<char>, r: Response)
    ensures
        ({
            let line = result_text(to, Ok(r), true);
            &&& contains(line, "{\"ok\":true,\"to\":"@ + json_quoted(r.to@))
            &&& contains(line, ",\"provider\":"@ + json_quoted(r.provider@))
            &&& contains(line, ",\"message_id\":"@ + json_opt(opt_text(r.message_id)))
            &&& contains(line, ",\"status\":"@ + decimal(r.status as nat))
            &&& contains(line, ",\"attempts\":"@ + decimal(r.attempts as nat))
            &&& contains(line, ",\"elapsed_ms\":"@ + decimal(duration_nanos(r.elapsed) / 1_000_000))
            &&& contains(line, ",\"raw\":"@ + json_quoted(r.raw@))
        }),
{
    let line = result_text(to, Ok(r), true);
    let part0 = "{\"ok\":true,\"to\":"@ + json_quoted(r.to@);
    let part1 = ",\"provider\":"@ + json_quoted(r.provider@);
    let part2 = ",\"message_id\":"@ + json_opt(opt_text(r.message_id));
    let part3 = ",\"status\":"@ + decimal(r.status as nat);
    let part4 = ",\"attempts\":"@ + decimal(r.attempts as nat);
    let part5 = ",\"elapsed_ms\":"@ + decimal(duration_nanos(r.elapsed) / 1_000_000);
    let part6 = ",\"raw\":"@ + json_quoted(r.raw@);
    lemma_first_shown("{\"ok\":true,\"to\":"@, json_quoted(r.to@));
    let text0 = part0;
    let parts0 = seq![part0];
    lemma_also_shown(text0, parts0, ",\"provider\":"@, json_quoted(r.provider@));
    let text1 = text0 + ",\"provider\":"@ + json_quoted(r.provider@);
    let parts1 = parts0.push(part1);
    lemma_also_shown(text1, parts1, ",\"message_id\":"@, json_opt(opt_text(r.message_id)));
    let text2 = text1 + ",\"message_id\":"@ + json_opt(opt_text(r.message_id));
    let parts2 = parts1.push(part2);
    lemma_also_shown(text2, parts2, ",\"status\":"@, decimal(r.status as nat));
    let text3 = text2 + ",\"status\":"@ + decimal(r.status as nat);
    let parts3 = parts2.push(part3);
    lemma_also_shown(text3, parts3, ",\"attempts\":"@, decimal(r.attempts as nat));
    let text4 = text3 + ",\"attempts\":"@ + decimal(r.attempts as nat);
    let parts4 = parts3.push(part4);
    lemma_also_shown(text4, parts4, ",\"elapsed_ms\":"@, decimal(duration_nanos(r.elapsed) / 1_000_000));
    let text5 = text4 + ",\"elapsed_ms\":"@ + decimal(duration_nanos(r.elapsed) / 1_000_000);
    let parts5 = parts4.push(part5);
    lemma_also_shown(text5, parts5, ",\"raw\":"@, json_quoted(r.raw@));
    let text6 = text5 + ",\"raw\":"@ + json_quoted(r.raw@);
    let parts6 = parts5.push(part6);
    lemma_all_still_shown(text6, parts6, "}"@);
    assert(line == text6 + "}"@);
    assert(parts6[0] == part0);
    assert(parts6[1] == part1);
    assert(parts6[2] == part2);
    assert(parts6[3] == part3);
    assert(parts6[4] == part4);
    assert(parts6[5] == part5);
    assert(parts6[6] == part6);
}

/// The line of a send that was accepted shows where it went, who took it, the id
/// or a dash, the time, the attempts and the answer.
pub proof fn lemma_an_accepted_send_in_words(to: Seq<char>, r: Response, id: Seq<char>)
    requires
        match r.message_id {
            Some(own) => id == own@,
            None => id == "-"@,
        },
    ensures
        ({
            let line = result_text(to, Ok(r), false);
            &&& contains(line, "OK    "@ + r.to@)
            &&& contains(line, "  via="@ + r.provider@)
            &&& contains(line, "  id="@ + id)
            &&& contains(line, "  "@ + decimal(duration_nanos(r.elapsed) / 1_000_000))
            &&& contains(line, "ms  attempt(s)="@ + decimal(r.attempts as nat))
            &&& contains(line, "  raw="@ + trimmed(r.raw@))
        }),
{
    let line = result_text(to, Ok(r), false);
    let part0 = "OK    "@ + r.to@;
    let part1 = "  via="@ + r.provider@;
    let part2 = "  id="@ + id;
    let part3 = "  "@ + decimal(duration_nanos(r.elapsed) / 1_000_000);
    let part4 = "ms  attempt(s)="@ + decimal(r.attempts as nat);
    let part5 = "  raw="@ + trimmed(r.raw@);
    lemma_first_shown("OK    "@, r.to@);
    let text0 = part0;
    let parts0 = seq![part0];
    lemma_also_shown(text0, parts0, "  via="@, r.provider@);
    let text1 = text0 + "  via="@ + r.provider@;
    let parts1 = parts0.push(part1);
    lemma_also_shown(text1, parts1, "  id="@, id);
    let text2 = text1 + "  id="@ + id;
    let parts2 = parts1.push(part2);
    lemma_also_shown(text2, parts2, "  "@, decimal(duration_nanos(r.elapsed) / 1_000_000));
    let text3 = text2 + "  "@ + decimal(duration_nanos(r.elapsed) / 1_000_000);
    let parts3 = parts2.push(part3);
    lemma_also_shown(text3, parts3, "ms  attempt(s)="@, decimal(r.attempts as nat));
    let text4 = text3 + "ms  attempt(s)="@ + decimal(r.attempts as nat);
    let parts4 = parts3.push(part4);
    lemma_also_shown(text4, parts4, "  raw="@, trimmed(r.raw@));
    let text5 = text4 + "  raw="@ + trimmed(r.raw@);
    let parts5 = parts4.push(part5);
    assert(line == text5);
    assert(parts5[0] == part0);
    assert(parts5[1] == part1);
    assert(parts5[2] == part2);
    assert(parts5[3] == part3);
    assert(parts5[4] == part4);
    assert(parts5[5] == part5);
}

/// The JSON line of a send that failed shows to whom, the error, and whether it is
/// worth another try or a matter for an operator.
pub proof fn lemma_a_failed_send_as_json(to: Seq<char>, e: Error)
    ensures
        ({
            let line = result_text(to, Err(e), true);
            &&& contains(line, "{\"ok\":false,\"to\":"@ + json_quoted(to))
            &&& contains(line, ",\"error\":"@ + json_quoted(e.text()))
            &&& contains(line, ",\"retryable\":"@ + truth(e.retryable()))
            &&& contains(line, ",\"fatal\":"@ + truth(e.fatal()))
        }),
{
    let line = result_text(to, Err(e), true);
    let part0 = "{\"ok\":false,\"to\":"@ + json_quoted(to);
    let part1 = ",\"error\":"@ + json_quoted(e.text());
    let part2 = ",\"retryable\":"@ + truth(e.retryable());
    let part3 = ",\"fatal\":"@ + truth(e.fatal());
    lemma_first_shown("{\"ok\":false,\"to\":"@, json_quoted(to));
    let text0 = part0;
    let parts0 = seq![part0];
    lemma_also_shown(text0, parts0, ",\"error\":"@, json_quoted(e.text()));
    let text1 = text0 + ",\"error\":"@ + json_quoted(e.text());
    let parts1 = parts0.push(part1);
    lemma_also_shown(text1, parts1, ",\"retryable\":"@, truth(e.retryable()));
    let text2 = text1 + ",\"retryable\":"@ + truth(e.retryable());
    let parts2 = parts1.push(part2);
    lemma_also_shown(text2, parts2, ",\"fatal\":"@, truth(e.fatal()));
    let text3 = text2 + ",\"fatal\":"@ + truth(e.fatal());
    let parts3 = parts2.push(part3);
    lemma_all_still_shown(text3, parts3, "}"@);
    assert(line == text3 + "}"@);
    assert(parts3[0] == part0);
    assert(parts3[1] == part1);
    assert(parts3[2] == part2);
    assert(parts3[3] == part3);
}

/// The line of a send that failed shows to whom, and the error.
pub proof fn lemma_a_failed_send_in_words(to: Seq<char>, e: Error)
    ensures
        ({
            let line = result_text(to, Err(e), false);
            &&& contains(line, "FAIL  "@ + to)
            &&& contains(line, "  "@ + e.text())
        }),
{
    let line = result_text(to, Err(e), false);
    let part0 = "FAIL  "@ + to;
    let part1 = "  "@ + e.text();
    lemma_first_shown("FAIL  "@, to);
    let text0 = part0;
    let parts0 = seq![part0];
    lemma_also_shown(text0, parts0, "  "@, e.text());
    let text1 = text0 + "  "@ + e.text();
    let parts1 = parts0.push(part1);
    assert(line == text1);
    assert(parts1[0] == part0);
    assert(parts1[1] == part1);
}

/// Truth values are written as JSON has them.
pub proof fn lemma_truth_in_words(b: bool)
    ensures
        b ==> truth(b) == "true"@,
        !b ==> truth(b) == "false"@,
{
}

/// The failures of a batch are the results that are errors, counted.
pub proof fn lemma_failures_are_counted(results: Seq<BatchItem>)
    ensures
        failures(results, results.len()) == results.filter(|item: BatchItem| item.1 is Err).len(),
    decreases results.len(),
{
    reveal(Seq::filter);
    if results.len() > 0 {
        let before = results.drop_last();
        lemma_failures_are_counted(before);
        lemma_failures_of_prefix(results, before.len());
    }
}

proof fn lemma_failures_of_prefix(results: Seq<BatchItem>, n: nat)
    requires
        n < results.len(),
    ensures
        failures(results, n) == failures(results.drop_last(), n),
    decreases n,
{
    if n > 0 {
        lemma_failures_of_prefix(results, (n - 1) as nat);
    }
}

// ---------------------------------------------------------------------------
// Numbers
// ---------------------------------------------------------------------------

/// A number that is normalized is shown as it was given and as it is sent.
pub proof fn lemma_a_normalized_number_is_shown(
    country_code: Option<Seq<char>>,
    number: Seq<char>,
    normalized: Seq<char>,
)
    requires
        normalized_number(country_code, number) == Ok::<Seq<char>, Seq<char>>(normalized),
    ensures
        normalize_text(country_code, number, false) == number + "\t-> "@ + normalized,
        contains(
            normalize_text(country_code, number, true),
            "{\"input\":"@ + json_quoted(number),
        ),
        contains(
            normalize_text(country_code, number, true),
            ",\"normalized\":"@ + json_quoted(normalized),
        ),
{
    let start = "{\"input\":"@;
    let label = ",\"normalized\":"@;
    lemma_first_shown(start, json_quoted(number));
    let first = seq![start + json_quoted(number)];
    let both = first.push(label + json_quoted(normalized));
    lemma_also_shown(start + json_quoted(number), first, label, json_quoted(normalized));
    lemma_all_still_shown(
        start + json_quoted(number) + label + json_quoted(normalized),
        both,
        "}"@,
    );
    assert(both[0] == start + json_quoted(number));
    assert(both[1] == label + json_quoted(normalized));
}

/// A number that is refused is shown as it was given, with the reason.
pub proof fn lemma_a_refused_number_is_shown(
    country_code: Option<Seq<char>>,
    number: Seq<char>,
    reason: Seq<char>,
)
    requires
        normalized_number(country_code, number) == Err::<Seq<char>, Seq<char>>(reason),
    ensures
        ({
            let error = "invalid phone number "@ + quoted(number) + ": "@ + reason;
            &&& normalize_text(country_code, number, false) == number + "\t-> ERROR: "@ + error
            &&& contains(
                normalize_text(country_code, number, true),
                "{\"input\":"@ + json_quoted(number),
            )
            &&& contains(
                normalize_text(country_code, number, true),
                ",\"error\":"@ + json_quoted(error),
            )
        }),
{
    let error = "invalid phone number "@ + quoted(number) + ": "@ + reason;
    let start = "{\"input\":"@;
    let label = ",\"error\":"@;
    lemma_first_shown(start, json_quoted(number));
    let first = seq![start + json_quoted(number)];
    let both = first.push(label + json_quoted(error));
    lemma_also_shown(start + json_quoted(number), first, label, json_quoted(error));
    lemma_all_still_shown(start + json_quoted(number) + label + json_quoted(error), both, "}"@);
    assert(both[0] == start + json_quoted(number));
    assert(both[1] == label + json_quoted(error));
}

/// The numbers that are refused are counted.
pub proof fn lemma_refused_numbers_are_counted(
    country_code: Option<Seq<char>>,
    numbers: Seq<Seq<char>>,
)
    ensures
        refused(country_code, numbers, numbers.len()) == numbers.filter(
            |number: Seq<char>| normalized_number(country_code, number) is Err,
        ).len(),
    decreases numbers.len(),
{
    reveal(Seq::filter);
    if numbers.len() > 0 {
        let before = numbers.drop_last();
        lemma_refused_numbers_are_counted(country_code, before);
        lemma_refused_of_prefix(country_code, numbers, before.len());
    }
}

proof fn lemma_refused_of_prefix(
    country_code: Option<Seq<char>>,
    numbers: Seq<Seq<char>>,
    n: nat,
)
    requires
        n < numbers.len(),
    ensures
        refused(country_code, numbers, n) == refused(country_code, numbers.drop_last(), n),
    decreases n,
{
    if n > 0 {
        lemma_refused_of_prefix(country_code, numbers, (n - 1) as nat);
    }
}

// ---------------------------------------------------------------------------
// Accounts and dry runs
// ---------------------------------------------------------------------------

/// The JSON line on an account shows each setting behind its label, the endpoint
/// that is called, and of the API key the mask.
pub proof fn lemma_an_account_as_json(config: ConfigView)
    ensures
        ({
            let line = check_text(config, true)[0];
            &&& contains(line, "{\"ok\":true,\"base_url\":"@ + json_quoted(config.effective_base_url()))
            &&& contains(line, ",\"base_url_is_default\":"@ + truth(
                config.effective_base_url() == "https://mdssend.in/api.php"@,
            ))
            &&& contains(line, ",\"username\":"@ + json_quoted(config.username))
            &&& contains(line, ",\"sender_id\":"@ + json_quoted(config.sender_id))
            &&& contains(line, ",\"route\":"@ + json_quoted(config.route.text()))
            &&& contains(line, ",\"template_id\":"@ + json_opt(config.template_id))
            &&& contains(line, ",\"entity_id\":"@ + json_opt(config.entity_id))
            &&& contains(line, ",\"country_code\":"@ + json_opt(config.default_country_code))
            &&& contains(line, ",\"api_key\":"@ + json_quoted(masked(config.api_key)))
        }),
{
    let line = check_text(config, true)[0];
    let part0 = "{\"ok\":true,\"base_url\":"@ + json_quoted(config.effective_base_url());
    let part1 = ",\"base_url_is_default\":"@ + truth(
                config.effective_base_url() == "https://mdssend.in/api.php"@,
            );
    let part2 = ",\"username\":"@ + json_quoted(config.username);
    let part3 = ",\"sender_id\":"@ + json_quoted(config.sender_id);
    let part4 = ",\"route\":"@ + json_quoted(config.route.text());
    let part5 = ",\"template_id\":"@ + json_opt(config.template_id);
    let part6 = ",\"entity_id\":"@ + json_opt(config.entity_id);
    let part7 = ",\"country_code\":"@ + json_opt(config.default_country_code);
    let part8 = ",\"api_key\":"@ + json_quoted(masked(config.api_key));
    lemma_first_shown("{\"ok\":true,\"base_url\":"@, json_quoted(config.effective_base_url()));
    let text0 = part0;
    let parts0 = seq![part0];
    lemma_also_shown(text0, parts0, ",\"base_url_is_default\":"@, truth(
                config.effective_base_url() == "https://mdssend.in/api.php"@,
            ));
    let text1 = text0 + ",\"base_url_is_default\":"@ + truth(
                config.effective_base_url() == "https://mdssend.in/api.php"@,
            );
    let parts1 = parts0.push(part1);
    lemma_also_shown(text1, parts1, ",\"username\":"@, json_quoted(config.username));
    let text2 = text1 + ",\"username\":"@ + json_quoted(config.username);
    let parts2 = parts1.push(part2);
    lemma_also_shown(text2, parts2, ",\"sender_id\":"@, json_quoted(config.sender_id));
    let text3 = text2 + ",\"sender_id\":"@ + json_quoted(config.sender_id);
    let parts3 = parts2.push(part3);
    lemma_also_shown(text3, parts3, ",\"route\":"@, json_quoted(config.route.text()));
    let text4 = text3 + ",\"route\":"@ + json_quoted(config.route.text());
    let parts4 = parts3.push(part4);
    lemma_also_shown(text4, parts4, ",\"template_id\":"@, json_opt(config.template_id));
    let text5 = text4 + ",\"template_id\":"@ + json_opt(config.template_id);
    let parts5 = parts4.push(part5);
    lemma_also_shown(text5, parts5, ",\"entity_id\":"@, json_opt(config.entity_id));
    let text6 = text5 + ",\"entity_id\":"@ + json_opt(config.entity_id);
    let parts6 = parts5.push(part6);
    lemma_also_shown(text6, parts6, ",\"country_code\":"@, json_opt(config.default_country_code));
    let text7 = text6 + ",\"country_code\":"@ + json_opt(config.default_country_code);
    let parts7 = parts6.push(part7);
    lemma_also_shown(text7, parts7, ",\"api_key\":"@, json_quoted(masked(config.api_key)));
    let text8 = text7 + ",\"api_key\":"@ + json_quoted(masked(config.api_key));
    let parts8 = parts7.push(part8);
    lemma_all_still_shown(text8, parts8, "}"@);
    assert(line == text8 + "}"@);
    assert(parts8[0] == part0);
    assert(parts8[1] == part1);
    assert(parts8[2] == part2);
    assert(parts8[3] == part3);
    assert(parts8[4] == part4);
    assert(parts8[5] == part5);
    assert(parts8[6] == part6);
    assert(parts8[7] == part7);
    assert(parts8[8] == part8);
}

/// An optional setting, or a dash.
pub open spec fn dashed(setting: Option<Seq<char>>) -> Seq<char> {
    match setting {
        Some(value) => value,
        None => "-"@,
    }
}

/// The report on an account is a line each for its settings, with the endpoint
/// that is called, whether that is the default, and of the API key the mask. As
/// JSON it is one line.
pub proof fn lemma_an_account_in_words(config: ConfigView)
    ensures
        check_text(config, true).len() == 1,
        ({
            let report = check_text(config, false);
            let endpoint = config.effective_base_url();
            &&& report.len() == 9
            &&& report[0] == "configuration OK"@
            &&& endpoint == "https://mdssend.in/api.php"@ ==> report[1] == "  base_url     "@
                + endpoint + "  (default)"@
            &&& endpoint != "https://mdssend.in/api.php"@ ==> report[1] == "  base_url     "@
                + endpoint
            &&& report[2] == "  username     "@ + config.username
            &&& report[3] == "  api_key      "@ + masked(config.api_key)
            &&& report[4] == "  sender_id    "@ + config.sender_id
            &&& report[5] == "  route        "@ + config.route.text()
            &&& report[6] == "  template_id  "@ + dashed(config.template_id)
            &&& report[7] == "  entity_id    "@ + dashed(config.entity_id)
            &&& report[8] == "  country_code "@ + dashed(config.default_country_code)
        }),
{
    reveal_strlit("");
    let endpoint = config.effective_base_url();
    assert("  base_url     "@ + endpoint + ""@ =~= "  base_url     "@ + endpoint);
}

/// The number that a dry run shows: the normalized one, or why there is none.
pub open spec fn shown_recipient(country_code: Option<Seq<char>>, number: Seq<char>) -> Seq<char> {
    match normalized_number(country_code, number) {
        Ok(normalized) => normalized,
        Err(reason) => "INVALID (invalid phone number "@ + quoted(number) + ": "@ + reason + ")"@,
    }
}

proof fn lemma_shown_recipient(country_code: Option<Seq<char>>, number: Seq<char>)
    ensures
        dry_recipient(country_code, number) == shown_recipient(country_code, number),
{
    reveal_strlit("INVALID (");
    reveal_strlit("invalid phone number ");
    reveal_strlit("INVALID (invalid phone number ");
    if let Err(reason) = normalized_number(country_code, number) {
        assert("INVALID (invalid phone number "@ =~= "INVALID ("@ + "invalid phone number "@);
        assert(dry_recipient(country_code, number) =~= shown_recipient(country_code, number));
    }
}

/// A dry run shows of each message, as JSON, the recipient as given and as it
/// would be sent, the body and how many bytes that takes.
pub proof fn lemma_a_dry_run_as_json(config: ConfigView, message: MessageView)
    ensures
        ({
            let line = dry_run_text(config, message, true)[0];
            &&& contains(line, "{\"dry_run\":true,\"to\":"@ + json_quoted(message.to))
            &&& contains(line, ",\"normalized\":"@ + json_quoted(
                shown_recipient(config.default_country_code, message.to),
            ))
            &&& contains(line, ",\"body\":"@ + json_quoted(message.body))
            &&& contains(line, ",\"len\":"@ + decimal(byte_len(message.body)))
        }),
{
    lemma_shown_recipient(config.default_country_code, message.to);
    let line = dry_run_text(config, message, true)[0];
    let part0 = "{\"dry_run\":true,\"to\":"@ + json_quoted(message.to);
    let part1 = ",\"normalized\":"@ + json_quoted(
                shown_recipient(config.default_country_code, message.to),
            );
    let part2 = ",\"body\":"@ + json_quoted(message.body);
    let part3 = ",\"len\":"@ + decimal(byte_len(message.body));
    lemma_first_shown("{\"dry_run\":true,\"to\":"@, json_quoted(message.to));
    let text0 = part0;
    let parts0 = seq![part0];
    lemma_also_shown(text0, parts0, ",\"normalized\":"@, json_quoted(
                shown_recipient(config.default_country_code, message.to),
            ));
    let text1 = text0 + ",\"normalized\":"@ + json_quoted(
                shown_recipient(config.default_country_code, message.to),
            );
    let parts1 = parts0.push(part1);
    lemma_also_shown(text1, parts1, ",\"body\":"@, json_quoted(message.body));
    let text2 = text1 + ",\"body\":"@ + json_quoted(message.body);
    let parts2 = parts1.push(part2);
    lemma_also_shown(text2, parts2, ",\"len\":"@, decimal(byte_len(message.body)));
    let text3 = text2 + ",\"len\":"@ + decimal(byte_len(message.body));
    let parts3 = parts2.push(part3);
    lemma_all_still_shown(text3, parts3, "}"@);
    assert(line == text3 + "}"@);
    assert(parts3[0] == part0);
    assert(parts3[1] == part1);
    assert(parts3[2] == part2);
    assert(parts3[3] == part3);
}

/// In words it shows the same on two lines.
pub proof fn lemma_a_dry_run_in_words(config: ConfigView, message: MessageView)
    ensures
        dry_run_text(config, message, true).len() == 1,
        dry_run_text(config, message, false) == seq![
            "DRY RUN  "@ + message.to + " -> "@ + shown_recipient(
                config.default_country_code,
                message.to,
            ),
            "  body ("@ + decimal(byte_len(message.body)) + " bytes): "@ + message.body,
        ],
{
    lemma_shown_recipient(config.default_country_code, message.to);
}

/// A dry run goes through the messages in order. It starts with the endpoint,
/// but not as JSON.
pub proof fn lemma_a_dry_run_goes_in_order(
    config: ConfigView,
    messages: Seq<MessageView>,
    n: nat,
    json: bool,
)
    requires
        n < messages.len(),
    ensures
        dry_run_report(config, messages, n + 1, json) == dry_run_report(config, messages, n, json)
            + dry_run_text(config, messages[n as int], json),
        dry_run_report(config, messages, 0, true).len() == 0,
        dry_run_report(config, messages, 0, false) == seq![
            "endpoint: "@ + config.effective_base_url(),
        ],
{
}

// ---------------------------------------------------------------------------
// Progress
// ---------------------------------------------------------------------------

/// The providers are shown in the order in which they are tried, with arrows
/// between them.
pub proof fn lemma_providers_are_shown_in_order(list: Seq<Seq<char>>, n: nat)
    ensures
        arrows(list, 1) == list[0],
        n > 0 ==> arrows(list, n + 1) == arrows(list, n) + " -> "@ + list[n as int],
{
}

/// The banner shows how many messages are sent, how many at a time, and through
/// which providers where there are several.
pub proof fn lemma_what_the_banner_shows(total: nat, concurrency: nat, providers: Seq<Seq<char>>)
    ensures
        contains(
            banner_text(total, concurrency, providers),
            "sending "@ + decimal(total),
        ),
        contains(
            banner_text(total, concurrency, providers),
            " message(s) at concurrency "@ + decimal(concurrency),
        ),
        providers.len() > 0 ==> contains(
            banner_text(total, concurrency, providers),
            " via "@ + arrows(providers, providers.len()),
        ),
        providers.len() == 0 ==> banner_text(total, concurrency, providers) == "sending "@
            + decimal(total) + " message(s) at concurrency "@ + decimal(concurrency) + "..."@,
{
    let first = "sending "@ + decimal(total);
    let second = " message(s) at concurrency "@ + decimal(concurrency);
    let third = " via "@ + arrows(providers, providers.len());
    let start = first + " message(s) at concurrency "@ + decimal(concurrency);
    let two = seq![first].push(second);
    lemma_first_shown("sending "@, decimal(total));
    lemma_also_shown(first, seq![first], " message(s) at concurrency "@, decimal(concurrency));
    assert(two[0] == first && two[1] == second);
    if providers.len() == 0 {
        lemma_all_still_shown(start, two, "..."@);
    } else {
        let three = two.push(third);
        let longer = start + " via "@ + arrows(providers, providers.len());
        lemma_also_shown(start, two, " via "@, arrows(providers, providers.len()));
        lemma_all_still_shown(longer, three, "..."@);
        assert(three[0] == first && three[1] == second && three[2] == third);
    }
}

/// Each event is traced with the provider it comes from and what it is about;
/// an acceptance is not traced.
pub proof fn lemma_what_a_trace_shows(event: Event<'_>)
    ensures
        event is Accepted <==> trace_text(event) is None,
        event matches Event::Attempt { provider, to, attempt } ==> trace_text(event) == Some(
            "  ["@ + provider@ + "] attempt "@ + decimal(attempt as nat) + " -> "@ + to@,
        ),
        event matches Event::Retrying { provider, to, attempt, delay, error } ==> trace_text(event)
            == Some(
            "  ["@ + provider@ + "] attempt "@ + decimal(attempt as nat) + " failed ("@
                + error.text() + "); retrying in "@ + span_text(duration_nanos(delay)),
        ),
        event matches Event::Slow { provider, to, elapsed } ==> trace_text(event) == Some(
            "  ["@ + provider@ + "] SLOW "@ + to@ + " took "@ + span_text(duration_nanos(elapsed)),
        ),
        event matches Event::Failed { provider, to, error } ==> trace_text(event) == Some(
            "  ["@ + provider@ + "] gave up on "@ + to@ + ": "@ + error.text(),
        ),
        event matches Event::FailingOver { from, to_provider, to, error } ==> trace_text(event)
            == Some("  ["@ + from@ + "] -> ["@ + to_provider@ + "]: "@ + error.text()),
{
}

// ---------------------------------------------------------------------------
// Logs
// ---------------------------------------------------------------------------

/// A log shows of a client its name, its endpoint, the account and the sender id,
/// the route and how many sends it keeps in flight.
pub proof fn lemma_what_a_log_shows_of_a_client(client: ClientView)
    ensures
        ({
            let line = client.debug_text();
            &&& contains(line, "MdsClient { name: "@ + quoted(client.name))
            &&& contains(line, ", endpoint: "@ + quoted(client.endpoint.text()))
            &&& contains(line, ", username: "@ + quoted(client.config.username))
            &&& contains(line, ", sender_id: "@ + quoted(client.config.sender_id))
            &&& contains(line, ", route: "@ + route_debug(client.config.route))
            &&& contains(line, ", concurrency: "@ + decimal(client.concurrency as nat))
        }),
{
    let line = client.debug_text();
    let part0 = "MdsClient { name: "@ + quoted(client.name);
    let part1 = ", endpoint: "@ + quoted(client.endpoint.text());
    let part2 = ", username: "@ + quoted(client.config.username);
    let part3 = ", sender_id: "@ + quoted(client.config.sender_id);
    let part4 = ", route: "@ + route_debug(client.config.route);
    let part5 = ", concurrency: "@ + decimal(client.concurrency as nat);
    lemma_first_shown("MdsClient { name: "@, quoted(client.name));
    let text0 = part0;
    let parts0 = seq![part0];
    lemma_also_shown(text0, parts0, ", endpoint: "@, quoted(client.endpoint.text()));
    let text1 = text0 + ", endpoint: "@ + quoted(client.endpoint.text());
    let parts1 = parts0.push(part1);
    lemma_also_shown(text1, parts1, ", username: "@, quoted(client.config.username));
    let text2 = text1 + ", username: "@ + quoted(client.config.username);
    let parts2 = parts1.push(part2);
    lemma_also_shown(text2, parts2, ", sender_id: "@, quoted(client.config.sender_id));
    let text3 = text2 + ", sender_id: "@ + quoted(client.config.sender_id);
    let parts3 = parts2.push(part3);
    lemma_also_shown(text3, parts3, ", route: "@, route_debug(client.config.route));
    let text4 = text3 + ", route: "@ + route_debug(client.config.route);
    let parts4 = parts3.push(part4);
    lemma_also_shown(text4, parts4, ", concurrency: "@, decimal(client.concurrency as nat));
    let text5 = text4 + ", concurrency: "@ + decimal(client.concurrency as nat);
    let parts5 = parts4.push(part5);
    lemma_all_still_shown(text5, parts5, ", .. }"@);
    assert(line == text5 + ", .. }"@);
    assert(parts5[0] == part0);
    assert(parts5[1] == part1);
    assert(parts5[2] == part2);
    assert(parts5[3] == part3);
    assert(parts5[4] == part4);
    assert(parts5[5] == part5);
}

/// A log shows of a builder the name, where it has one, the timeout, how many sends
/// are kept in flight, and whether there is an observer.
pub proof fn lemma_what_a_log_shows_of_a_builder(b: BuilderView, has_observer: bool, name: Seq<char>)
    requires
        match b.name {
            Some(own) => name == "Some("@ + quoted(own) + ")"@,
            None => name == "None"@,
        },
    ensures
        ({
            let line = b.debug_text(has_observer);
            &&& contains(line, "MdsClientBuilder { name: "@ + name)
            &&& contains(line, ", timeout: "@ + span_text(duration_nanos(b.http.timeout)))
            &&& contains(line, ", concurrency: "@ + decimal(b.concurrency as nat))
            &&& contains(line, ", has_observer: "@ + truth(has_observer))
        }),
{
    let line = b.debug_text(has_observer);
    let part0 = "MdsClientBuilder { name: "@ + name;
    let part1 = ", timeout: "@ + span_text(duration_nanos(b.http.timeout));
    let part2 = ", concurrency: "@ + decimal(b.concurrency as nat);
    let part3 = ", has_observer: "@ + truth(has_observer);
    lemma_first_shown("MdsClientBuilder { name: "@, name);
    let text0 = part0;
    let parts0 = seq![part0];
    lemma_also_shown(text0, parts0, ", timeout: "@, span_text(duration_nanos(b.http.timeout)));
    let text1 = text0 + ", timeout: "@ + span_text(duration_nanos(b.http.timeout));
    let parts1 = parts0.push(part1);
    lemma_also_shown(text1, parts1, ", concurrency: "@, decimal(b.concurrency as nat));
    let text2 = text1 + ", concurrency: "@ + decimal(b.concurrency as nat);
    let parts2 = parts1.push(part2);
    lemma_also_shown(text2, parts2, ", has_observer: "@, truth(has_observer));
    let text3 = text2 + ", has_observer: "@ + truth(has_observer);
    let parts3 = parts2.push(part3);
    lemma_all_still_shown(text3, parts3, ", .. }"@);
    assert(line == text3 + ", .. }"@);
    assert(parts3[0] == part0);
    assert(parts3[1] == part1);
    assert(parts3[2] == part2);
    assert(parts3[3] == part3);
}

/// A log names routes as they are.
pub proof fn lemma_what_a_log_shows_of_a_route(route: RouteView)
    ensures
        route is Transactional ==> route_debug(route) == "Transactional"@,
        route is Promotional ==> route_debug(route) == "Promotional"@,
        route matches RouteView::Custom(s) ==> route_debug(route) == "Custom("@ + quoted(s) + ")"@,
{
}

/// A log shows of a chain its providers in order.
pub proof fn lemma_what_a_log_shows_of_a_chain(chain: Seq<ClientView>, has_observer: bool, n: nat)
    requires
        n < chain.len(),
    ensures
        chain_debug_text(chain, has_observer) == "FailoverClient { providers: ["@ + quoted_list(
            names(chain),
            chain.len(),
        ) + "], has_observer: "@ + truth(has_observer) + " }"@,
        quoted_list(names(chain), 1) == quoted(chain[0].name),
        n > 0 ==> quoted_list(names(chain), n + 1) == quoted_list(names(chain), n) + ", "@
            + quoted(chain[n as int].name),
{
}

// ---------------------------------------------------------------------------
// Errors
// ---------------------------------------------------------------------------

/// An error in words names what it is about: the setting, the URL, the number,
/// the host, the status, the reason, and what lies beneath it.
pub proof fn lemma_what_an_error_says(error: Error)
    ensures
        error matches Error::MissingConfig(field) ==> contains(error.text(), field@),
        error matches Error::InvalidBaseUrl { url, source } ==> contains(
            error.text(),
            quoted(url@) + ": "@ + source@,
        ),
        error matches Error::InvalidNumber { number, reason } ==> contains(
            error.text(),
            quoted(number@) + ": "@ + reason@,
        ),
        error matches Error::InvalidMessage(reason) ==> contains(error.text(), reason@),
        error matches Error::HttpClientBuild(source) ==> contains(error.text(), source@),
        error matches Error::Runtime(source) ==> contains(error.text(), source@),
        error matches Error::Transport { endpoint, elapsed, source } ==> contains(
            error.text(),
            endpoint@ + " after "@ + span_text(duration_nanos(elapsed)) + ": "@ + source.detail@,
        ),
        error matches Error::HttpStatus { status, body } ==> contains(
            error.text(),
            decimal(status as nat) + ": "@ + body@,
        ),
        error matches Error::Rejected { reason, raw } ==> contains(
            error.text(),
            reason@ + " (raw: "@ + raw@,
        ),
        error matches Error::RetriesExhausted { attempts, source } ==> contains(
            error.text(),
            decimal(attempts as nat) + " attempt(s): "@ + source.text(),
        ),
        error matches Error::AllProvidersFailed(list) ==> contains(
            error.text(),
            decimal(list@.len()) + " provider(s) failed: "@,
        ),
{
    let none = Seq::<char>::empty();
    match error {
        Error::MissingConfig(field) => {
            let start = "missing configuration field: "@;
            assert(error.text() =~= start + field@ + none);
            lemma_shown(error.text(), start, field@, none);
        },
        Error::InvalidBaseUrl { url, source } => {
            let start = "invalid base_url "@;
            let part = quoted(url@) + ": "@ + source@;
            assert(error.text() =~= start + part + none);
            lemma_shown(error.text(), start, part, none);
        },
        Error::InvalidNumber { number, reason } => {
            let start = "invalid phone number "@;
            let part = quoted(number@) + ": "@ + reason@;
            assert(error.text() =~= start + part + none);
            lemma_shown(error.text(), start, part, none);
        },
        Error::InvalidMessage(reason) => {
            let start = "invalid message: "@;
            assert(error.text() =~= start + reason@ + none);
            lemma_shown(error.text(), start, reason@, none);
        },
        Error::HttpClientBuild(source) => {
            let start = "failed to build HTTP client: "@;
            assert(error.text() =~= start + source@ + none);
            lemma_shown(error.text(), start, source@, none);
        },
        Error::Runtime(source) => {
            let start = "failed to start the blocking runtime: "@;
            assert(error.text() =~= start + source@ + none);
            lemma_shown(error.text(), start, source@, none);
        },
        Error::Transport { endpoint, elapsed, source } => {
            let start = "transport error contacting "@;
            let part = endpoint@ + " after "@ + span_text(duration_nanos(elapsed)) + ": "@
                + source.detail@;
            assert(error.text() =~= start + part + none);
            lemma_shown(error.text(), start, part, none);
        },
        Error::HttpStatus { status, body } => {
            let start = "gateway returned HTTP "@;
            let part = decimal(status as nat) + ": "@ + body@;
            assert(error.text() =~= start + part + none);
            lemma_shown(error.text(), start, part, none);
        },
        Error::Rejected { reason, raw } => {
            let start = "gateway rejected the message: "@;
            let part = reason@ + " (raw: "@ + raw@;
            assert(error.text() =~= start + part + ")"@);
            lemma_shown(error.text(), start, part, ")"@);
        },
        Error::RetriesExhausted { attempts, source } => {
            let start = "giving up after "@;
            let part = decimal(attempts as nat) + " attempt(s): "@ + source.text();
            assert(error.text() =~= start + part + none);
            lemma_shown(error.text(), start, part, none);
        },
        Error::AllProvidersFailed(list) => {
            let start = "all "@;
            let part = decimal(list@.len()) + " provider(s) failed: "@;
            let rest = summary(list@, list@.len());
            assert(error.text() =~= start + part + rest);
            lemma_shown(error.text(), start, part, rest);
        },
    }
}

/// An error in words says first what kind of failure it is.
pub proof fn lemma_how_errors_begin(error: Error)
    ensures
        error is MissingConfig ==> "missing configuration field: "@.is_prefix_of(error.text()),
        error is InvalidBaseUrl ==> "invalid base_url "@.is_prefix_of(error.text()),
        error is InvalidNumber ==> "invalid phone number "@.is_prefix_of(error.text()),
        error is InvalidMessage ==> "invalid message: "@.is_prefix_of(error.text()),
        error is HttpClientBuild ==> "failed to build HTTP client: "@.is_prefix_of(error.text()),
        error is Runtime ==> "failed to start the blocking runtime: "@.is_prefix_of(error.text()),
        error is Transport ==> "transport error contacting "@.is_prefix_of(error.text()),
        error is HttpStatus ==> "gateway returned HTTP "@.is_prefix_of(error.text()),
        error is Rejected ==> "gateway rejected the message: "@.is_prefix_of(error.text()),
        error is RetriesExhausted ==> "giving up after "@.is_prefix_of(error.text()),
        error is AllProvidersFailed ==> "all "@.is_prefix_of(error.text()),
{
}

/// The error of a chain names every provider that failed, with its own error.
pub proof fn lemma_a_chain_names_every_failure(list: Vec<ProviderFailure>, i: int)
    requires
        0 <= i < list@.len(),
    ensures
        contains(
            Error::AllProvidersFailed(list).text(),
            list@[i].provider@ + ": "@ + list@[i].error.text(),
        ),
{
    let error = Error::AllProvidersFailed(list);
    let start = "all "@ + decimal(list@.len()) + " provider(s) failed: "@;
    let rest = summary(list@, list@.len());
    let none = Seq::<char>::empty();
    lemma_summary_names(list@, list@.len(), i);
    assert(error.text() =~= start + rest + none);
    lemma_shown(error.text(), start, rest, none);
    lemma_contains_trans(
        error.text(),
        rest,
        list@[i].provider@ + ": "@ + list@[i].error.text(),
    );
}

proof fn lemma_summary_names(list: Seq<ProviderFailure>, n: nat, i: int)
    requires
        0 <= i < n <= list.len(),
    ensures
        contains(summary(list, n), list[i].provider@ + ": "@ + list[i].error.text()),
    decreases n,
{
    let own = list[n - 1].provider@ + ": "@ + list[n - 1].error.text();
    let none = Seq::<char>::empty();
    if n == 1 {
        assert(summary(list, n) =~= none + own + none);
        lemma_shown(summary(list, n), none, own, none);
    } else {
        let before = summary(list, (n - 1) as nat);
        if i == n - 1 {
            assert(summary(list, n) =~= (before + "; "@) + own + none);
            lemma_shown(summary(list, n), before + "; "@, own, none);
        } else {
            lemma_summary_names(list, (n - 1) as nat, i);
            let part = list[i].provider@ + ": "@ + list[i].error.text();
            lemma_still_shown(before, "; "@, part);
            lemma_still_shown(before + "; "@, own, part);
        }
    }
}

} // verus!
