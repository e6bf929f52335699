//! What the command-line tool makes of its input: flags, environment variables,
//! files and standard input.

use crate::client::{
    build_error, default_connection, default_growth, MdsClient, DEFAULT_CONCURRENCY,
};
use crate::config::{
    missing_field, route_named, Config, ConfigView, RetryPolicy, Route, RouteView, Settings,
    DEFAULT_BASE_URL,
};
use crate::duration::duration_nanos;
use crate::endpoint::{parsed_url, UrlView};
use crate::error::{Error, Result};
use crate::form::Pair;
use crate::message::{plain_message, rendered, Message, MessageView, Template};
use crate::search::{cut, is_at, pieces, split, split_once, starts_with};
use crate::text::{
    among, chars_of, copy_opt, opt_text, same, slice_texts, string_of, strip, strip_back, texts,
    trim, trim_any, trim_end_any, trimmed,
};
use std::time::Duration;
use vstd::prelude::*;
use vstd::slice::slice_subrange;

verus! {

// ---------------------------------------------------------------------------
// Settings
// ---------------------------------------------------------------------------

/// A setting, trimmed: the flag where it is given, else the environment
/// variable. One that is blank counts as not set.
pub open spec fn picked(flag: Option<String>, variable: Option<String>) -> Option<Seq<char>> {
    let given = match flag {
        Some(v) => Some(v@),
        None => opt_text(variable),
    };
    match given {
        Some(v) if trimmed(v).len() > 0 => Some(trimmed(v)),
        _ => None,
    }
}

/// Picks a setting: the flag wins over the environment variable.
pub fn pick(flag: &Option<String>, variable: &Option<String>) -> (r: Option<String>)
    ensures
        opt_text(r) == picked(*flag, *variable),
{
    let given = match flag {
        Some(v) => chars_of(v),
        None => match variable {
            Some(v) => chars_of(v),
            None => return None,
        },
    };
    let value = trim(&given);
    if value.len() == 0 {
        None
    } else {
        Some(string_of(value))
    }
}

/// The account that flags and environment describe, or the setting that is
/// missing.
pub open spec fn resolved_config(flags: Settings, env: Settings) -> std::result::Result<
    ConfigView,
    Seq<char>,
> {
    if picked(flags.username, env.username) is None {
        Err("username"@)
    } else if picked(flags.api_key, env.api_key) is None {
        Err("api_key"@)
    } else if picked(flags.sender_id, env.sender_id) is None {
        Err("sender_id"@)
    } else {
        Ok(
            ConfigView {
                base_url: match picked(flags.base_url, env.base_url) {
                    Some(url) => url,
                    None => DEFAULT_BASE_URL@,
                },
                username: picked(flags.username, env.username)->Some_0,
                api_key: picked(flags.api_key, env.api_key)->Some_0,
                sender_id: picked(flags.sender_id, env.sender_id)->Some_0,
                route: match picked(flags.route, env.route) {
                    Some(route) => route_named(route),
                    None => RouteView::Transactional,
                },
                template_id: picked(flags.template_id, env.template_id),
                entity_id: picked(flags.entity_id, env.entity_id),
                default_country_code: picked(flags.country_code, env.country_code),
            },
        )
    }
}

/// Flags win over env vars; env vars fill the rest.
pub fn resolve_config(flags: &Settings, env: &Settings) -> (r: Result<Config>)
    ensures
        match r {
            Ok(config) => resolved_config(*flags, *env) == Ok::<ConfigView, Seq<char>>(config@),
            Err(e) => e matches Error::MissingConfig(field) && resolved_config(*flags, *env)
                == Err::<ConfigView, Seq<char>>(field@),
        },
{
    let username = match pick(&flags.username, &env.username) {
        Some(v) => v,
        None => return Err(Error::MissingConfig("username")),
    };
    let api_key = match pick(&flags.api_key, &env.api_key) {
        Some(v) => v,
        None => return Err(Error::MissingConfig("api_key")),
    };
    let sender_id = match pick(&flags.sender_id, &env.sender_id) {
        Some(v) => v,
        None => return Err(Error::MissingConfig("sender_id")),
    };
    let base_url = match pick(&flags.base_url, &env.base_url) {
        Some(v) => v,
        None => DEFAULT_BASE_URL.to_string(),
    };
    let route = match pick(&flags.route, &env.route) {
        Some(v) => Route::from(v.as_str()),
        None => Route::Transactional,
    };
    Ok(
        Config {
            base_url,
            username,
            api_key,
            sender_id,
            route,
            template_id: pick(&flags.template_id, &env.template_id),
            entity_id: pick(&flags.entity_id, &env.entity_id),
            default_country_code: pick(&flags.country_code, &env.country_code),
        },
    )
}

/// The account of the fallback endpoint: the same credentials on another URL,
/// with a template id of its own where one is given by flag or environment.
pub open spec fn fallback_account(
    config: ConfigView,
    url: Seq<char>,
    flag_template: Option<Seq<char>>,
    env_template: Option<Seq<char>>,
) -> ConfigView {
    ConfigView {
        base_url: url,
        template_id: match (flag_template, env_template) {
            (Some(tid), _) => Some(tid),
            (None, Some(tid)) => Some(tid),
            (None, None) => config.template_id,
        },
        ..config
    }
}

/// The account of the fallback endpoint.
pub fn fallback_config(
    config: &Config,
    url: &str,
    flag_template: &Option<String>,
    env_template: &Option<String>,
) -> (r: Config)
    ensures
        r@ == fallback_account(
            config@,
            url@,
            opt_text(*flag_template),
            opt_text(*env_template),
        ),
{
    let template_id = match flag_template {
        Some(tid) => Some(tid.clone()),
        None => match env_template {
            Some(tid) => Some(tid.clone()),
            None => copy_opt(&config.template_id),
        },
    };
    Config { base_url: url.to_string(), template_id, ..config.clone() }
}

/// The providers to send through, by name and in priority order: the account
/// itself, and the fallback where there is one.
pub fn plan_providers(
    config: &Config,
    fallback: &Option<String>,
    flag_template: &Option<String>,
    env_template: &Option<String>,
) -> (r: Vec<(&'static str, Config)>)
    ensures
        match *fallback {
            Some(url) => {
                &&& r@.len() == 2
                &&& r@[0].0@ == "primary"@ && r@[0].1@ == config@
                &&& r@[1].0@ == "fallback"@ && r@[1].1@ == fallback_account(
                    config@,
                    url@,
                    opt_text(*flag_template),
                    opt_text(*env_template),
                )
            },
            None => r@.len() == 1 && r@[0].0@ == "mds"@ && r@[0].1@ == config@,
        },
{
    let mut providers: Vec<(&'static str, Config)> = Vec::new();
    match fallback {
        Some(url) => {
            let second = fallback_config(config, url, flag_template, env_template);
            providers.push(("primary", config.clone()));
            providers.push(("fallback", second));
        },
        None => {
            providers.push(("mds", config.clone()));
        },
    }
    providers
}

/// The client for a provider, with the timeout and the retries asked for and
/// all else as it is by default.
pub fn make_client(name: &str, config: Config, timeout: Duration, retries: u32) -> (r: Result<
    MdsClient,
>)
    ensures
        match r {
            Ok(client) => {
                &&& missing_field(config@) is None
                &&& parsed_url(config@.effective_base_url()) == Ok::<UrlView, Seq<char>>(
                    client@.endpoint,
                )
                &&& client@.name == name@
                &&& client@.config == config@
                &&& client@.http.timeout == timeout
                &&& default_connection(client@.http)
                &&& client@.retry.max_retries == retries
                &&& default_growth(client@.retry)
                &&& client@.concurrency == DEFAULT_CONCURRENCY
                &&& duration_nanos(client@.slow_after) == 5_000_000_000
            },
            Err(e) => build_error(config@, e),
        },
{
    let mut retry = RetryPolicy::default();
    retry.max_retries = retries;
    MdsClient::builder().config(config).name(name).timeout(timeout).retry(retry).build()
}

// ---------------------------------------------------------------------------
// Files
// ---------------------------------------------------------------------------

/// The lines of a text.
pub open spec fn lines(content: Seq<char>) -> Seq<Seq<char>> {
    pieces(content, among(seq!['\n']))
}

fn split_lines(content: &[char]) -> (r: Vec<&[char]>)
    ensures
        slice_texts(r@) == lines(content@),
{
    let set: [char; 1] = ['\n'];
    assert(set@ =~= seq!['\n']);
    split(content, &set)
}

/// The assignment on a line of an environment file: `KEY=VALUE`, perhaps behind
/// `export `, perhaps with quotes around the value. Blank lines, comments and
/// lines without `=` have none.
pub open spec fn line_assignment(line: Seq<char>) -> Option<Pair> {
    let text = trimmed(line);
    if text.len() == 0 || text[0] == '#' {
        None
    } else {
        let body = if starts_with(text, "export "@) {
            text.skip("export "@.len() as int)
        } else {
            text
        };
        match cut(body, '=') {
            Some((key, value)) => Some(
                (trimmed(key), strip(trimmed(value), among(seq!['"', '\'']))),
            ),
            None => None,
        }
    }
}

/// The assignments on the first `n` lines, in order.
pub open spec fn assignments(list: Seq<Seq<char>>, n: nat) -> Seq<Pair>
    decreases n,
{
    if n == 0 {
        Seq::empty()
    } else {
        match line_assignment(list[n - 1]) {
            Some(pair) => assignments(list, (n - 1) as nat).push(pair),
            None => assignments(list, (n - 1) as nat),
        }
    }
}

/// Pairs of strings as pairs of texts.
pub open spec fn string_pairs(pairs: Seq<(String, String)>) -> Seq<Pair> {
    Seq::new(pairs.len(), |i: int| (pairs[i].0@, pairs[i].1@))
}

fn read_assignment(line: &[char]) -> (r: Option<(String, String)>)
    ensures
        match r {
            Some((key, value)) => line_assignment(line@) == Some((key@, value@)),
            None => line_assignment(line@) is None,
        },
{
    let text = trim(line);
    if text.len() == 0 || text[0] == '#' {
        return None;
    }
    let export = chars_of("export ");
    let n: usize = text.len();
    let body: &[char] = if is_at(text, &export, 0) {
        assert(text@.subrange(export@.len() as int, n as int) =~= text@.skip(export@.len() as int));
        slice_subrange(text, export.len(), n)
    } else {
        text
    };
    match split_once(body, '=') {
        Some((key, value)) => {
            let quotes: [char; 2] = ['"', '\''];
            assert(quotes@ =~= seq!['"', '\'']);
            Some((string_of(trim(key)), string_of(trim_any(trim(value), &quotes))))
        },
        None => None,
    }
}

/// Reads an environment file: `KEY=VALUE`, `#` comments, optional quotes.
pub fn parse_env_file(content: &str) -> (r: Vec<(String, String)>)
    ensures
        string_pairs(r@) == assignments(lines(content@), lines(content@).len()),
{
    let chars = chars_of(content);
    let list = split_lines(&chars);
    let ghost all = lines(content@);
    let mut pairs: Vec<(String, String)> = Vec::new();
    let mut i: usize = 0;
    assert(slice_texts(list@).len() == list@.len());
    assert(string_pairs(pairs@) =~= Seq::<Pair>::empty());
    while i < list.len()
        invariant
            i <= list@.len(),
            slice_texts(list@) == all,
            string_pairs(pairs@) == assignments(all, i as nat),
        decreases list@.len() - i,
    {
        assert(all[i as int] == list@[i as int]@);
        let ghost before = string_pairs(pairs@);
        if let Some(pair) = read_assignment(list[i]) {
            pairs.push(pair);
            assert(string_pairs(pairs@) =~= before.push((pair.0@, pair.1@)));
        }
        i += 1;
    }
    pairs
}

/// The first `n` assignments without those to a variable that is set already,
/// be it in the environment or by an assignment before.
pub open spec fn new_assignments(pairs: Seq<Pair>, is_set: Seq<bool>, n: nat) -> Seq<Pair>
    decreases n,
{
    if n == 0 {
        Seq::empty()
    } else {
        let i = n - 1;
        let before = new_assignments(pairs, is_set, (n - 1) as nat);
        if is_set[i] || exists|j: int| 0 <= j < i && (#[trigger] pairs[j]).0 == pairs[i].0 {
            before
        } else {
            before.push(pairs[i])
        }
    }
}

/// Keeps the assignments to variables that are not set yet; `is_set` says of
/// each whether its variable is set in the environment. An exported secret is
/// not clobbered, and the first assignment to a variable stands.
pub fn keep_new_assignments(pairs: &Vec<(String, String)>, is_set: &Vec<bool>) -> (r: Vec<
    (String, String),
>)
    requires
        is_set@.len() == pairs@.len(),
    ensures
        string_pairs(r@) == new_assignments(string_pairs(pairs@), is_set@, pairs@.len()),
{
    let ghost all = string_pairs(pairs@);
    let mut kept: Vec<(String, String)> = Vec::new();
    let mut i: usize = 0;
    assert(string_pairs(kept@) =~= Seq::<Pair>::empty());
    while i < pairs.len()
        invariant
            i <= pairs@.len(),
            is_set@.len() == pairs@.len(),
            all == string_pairs(pairs@),
            string_pairs(kept@) == new_assignments(all, is_set@, i as nat),
        decreases pairs@.len() - i,
    {
        let ghost before = string_pairs(kept@);
        let key = chars_of(&pairs[i].0);
        let mut repeated = false;
        let mut j: usize = 0;
        while j < i
            invariant
                j <= i < pairs@.len(),
                all == string_pairs(pairs@),
                key@ == all[i as int].0,
                repeated == (exists|k: int| 0 <= k < j && (#[trigger] all[k]).0 == all[i as int].0),
            decreases i - j,
        {
            if same(&chars_of(&pairs[j].0), &key) {
                assert(all[j as int].0 == all[i as int].0);
                repeated = true;
            }
            j += 1;
        }
        if !is_set[i] && !repeated {
            let pair = (pairs[i].0.clone(), pairs[i].1.clone());
            kept.push(pair);
            assert(string_pairs(kept@) =~= before.push(all[i as int]));
        }
        i += 1;
    }
    kept
}

/// The number on a line: what stands before a `#`, trimmed.
pub open spec fn line_number(line: Seq<char>) -> Seq<char> {
    trimmed(
        match cut(line, '#') {
            Some((number, _)) => number,
            None => line,
        },
    )
}

/// The numbers on the first `n` lines, in order; lines without one are skipped.
pub open spec fn line_numbers(list: Seq<Seq<char>>, n: nat) -> Seq<Seq<char>>
    decreases n,
{
    if n == 0 {
        Seq::empty()
    } else {
        let number = line_number(list[n - 1]);
        let before = line_numbers(list, (n - 1) as nat);
        if number.len() == 0 {
            before
        } else {
            before.push(number)
        }
    }
}

/// Reads a file of recipients, one per line. `#` comments and blanks skipped.
pub fn parse_number_file(content: &str) -> (r: Vec<String>)
    ensures
        texts(r@) == line_numbers(lines(content@), lines(content@).len()),
{
    let chars = chars_of(content);
    let list = split_lines(&chars);
    let ghost all = lines(content@);
    let mut numbers: Vec<String> = Vec::new();
    let mut i: usize = 0;
    assert(slice_texts(list@).len() == list@.len());
    assert(texts(numbers@) =~= Seq::<Seq<char>>::empty());
    while i < list.len()
        invariant
            i <= list@.len(),
            slice_texts(list@) == all,
            texts(numbers@) == line_numbers(all, i as nat),
        decreases list@.len() - i,
    {
        assert(all[i as int] == list@[i as int]@);
        let ghost before = texts(numbers@);
        let number = match split_once(list[i], '#') {
            Some((number, _)) => trim(number),
            None => trim(list[i]),
        };
        if number.len() > 0 {
            numbers.push(string_of(number));
            assert(texts(numbers@) =~= before.push(number@));
        }
        i += 1;
    }
    numbers
}

// ---------------------------------------------------------------------------
// Messages
// ---------------------------------------------------------------------------

/// Whether the message body is to be read from standard input: `-` means so,
/// which lets bodies with quotes or newlines be piped in without shell
/// escaping.
pub fn wants_stdin(text: &str) -> (r: bool)
    ensures
        r == (text@ == seq!['-']),
{
    let dash: [char; 1] = ['-'];
    assert(dash@ =~= seq!['-']);
    same(&chars_of(text), &dash)
}

/// The body read from standard input, without the line breaks at its end;
/// `None` where nothing is left.
pub fn stdin_body(input: &str) -> (r: Option<String>)
    ensures
        match r {
            Some(body) => body@ == strip_back(input@, among(seq!['\n'])) && body@.len() > 0,
            None => strip_back(input@, among(seq!['\n'])).len() == 0,
        },
{
    let set: [char; 1] = ['\n'];
    assert(set@ =~= seq!['\n']);
    let chars = chars_of(input);
    let body = trim_end_any(&chars, &set);
    if body.len() == 0 {
        None
    } else {
        Some(string_of(body))
    }
}

/// The views of messages.
pub open spec fn message_views(messages: Seq<Message>) -> Seq<MessageView> {
    Seq::new(messages.len(), |i: int| messages[i]@)
}

/// One message per number, each trimmed, all with the same body.
pub fn messages_to(numbers: &Vec<String>, body: &str) -> (r: Vec<Message>)
    ensures
        message_views(r@) == Seq::new(
            numbers@.len(),
            |i: int| plain_message(trimmed(numbers@[i]@), body@),
        ),
{
    let mut messages: Vec<Message> = Vec::new();
    let mut i: usize = 0;
    while i < numbers.len()
        invariant
            i <= numbers@.len(),
            messages@.len() == i,
            forall|j: int|
                0 <= j < i ==> (#[trigger] messages@[j])@ == plain_message(
                    trimmed(numbers@[j]@),
                    body@,
                ),
        decreases numbers@.len() - i,
    {
        let chars = chars_of(&numbers[i]);
        let to = string_of(trim(&chars));
        messages.push(Message::new(&to, body));
        i += 1;
    }
    assert(message_views(messages@) =~= Seq::new(
        numbers@.len(),
        |i: int| plain_message(trimmed(numbers@[i]@), body@),
    ));
    messages
}

/// What is to be sent.
#[derive(Debug)]
pub enum Job {
    /// A body to some numbers.
    Send { to: Vec<String>, body: String },
    /// A template filled with a code, to some numbers.
    Otp { to: Vec<String>, code: String, template: String },
    /// A body to the numbers in a file with this content.
    Bulk { content: String, body: String },
}

/// The recipients of a job, as they are given.
pub open spec fn job_numbers(job: Job) -> Seq<Seq<char>> {
    match job {
        Job::Send { to, .. } => texts(to@),
        Job::Otp { to, .. } => texts(to@),
        Job::Bulk { content, .. } => line_numbers(lines(content@), lines(content@).len()),
    }
}

/// The text that a job sends to each of them.
pub open spec fn job_body(job: Job) -> Seq<char> {
    match job {
        Job::Send { body, .. } => body@,
        Job::Otp { code, template, .. } => rendered(template@, seq![code@]),
        Job::Bulk { body, .. } => body@,
    }
}

/// The messages of a job, one per recipient; `None` where a file holds none.
pub fn job_messages(job: &Job) -> (r: Option<Vec<Message>>)
    ensures
        match r {
            Some(messages) => !(job is Bulk && job_numbers(*job).len() == 0) && message_views(
                messages@,
            ) == Seq::new(
                job_numbers(*job).len(),
                |i: int| plain_message(trimmed(job_numbers(*job)[i]), job_body(*job)),
            ),
            None => job is Bulk && job_numbers(*job).len() == 0,
        },
{
    let messages = match job {
        Job::Send { to, body } => messages_to(to, body),
        Job::Otp { to, code, template } => {
            messages_to(to, Template::new(template).render_one(code).as_str())
        },
        Job::Bulk { content, body } => {
            let numbers = parse_number_file(content);
            assert(texts(numbers@).len() == numbers@.len());
            if numbers.len() == 0 {
                return None;
            }
            messages_to(&numbers, body)
        },
    };
    assert(message_views(messages@) =~= Seq::new(
        job_numbers(*job).len(),
        |i: int| plain_message(trimmed(job_numbers(*job)[i]), job_body(*job)),
    ));
    Some(messages)
}

// ---------------------------------------------------------------------------
// Laws
// ---------------------------------------------------------------------------

/// An environment file never overrides what the environment sets, and of two
/// assignments to one variable only the first is kept.
pub proof fn lemma_environment_wins(pairs: Seq<Pair>, is_set: Seq<bool>, n: nat)
    requires
        n <= pairs.len(),
        is_set.len() == pairs.len(),
        forall|i: int, j: int|
            0 <= i < pairs.len() && 0 <= j < pairs.len() && (#[trigger] pairs[i]).0 == (
            #[trigger] pairs[j]).0 ==> is_set[i] == is_set[j],
    ensures
        forall|i: int, k: int|
            #![trigger pairs[i], new_assignments(pairs, is_set, n)[k]]
            0 <= i < pairs.len() && is_set[i] && 0 <= k < new_assignments(
                pairs,
                is_set,
                n,
            ).len() ==> new_assignments(pairs, is_set, n)[k].0 != pairs[i].0,
        forall|k: int|
            0 <= k < new_assignments(pairs, is_set, n).len() ==> exists|i: int|
                0 <= i < n && #[trigger] pairs[i] == #[trigger] new_assignments(
                    pairs,
                    is_set,
                    n,
                )[k] && (forall|j: int| 0 <= j < i ==> (#[trigger] pairs[j]).0 != pairs[i].0),
    decreases n,
{
    if n > 0 {
        lemma_environment_wins(pairs, is_set, (n - 1) as nat);
        let before = new_assignments(pairs, is_set, (n - 1) as nat);
        let now = new_assignments(pairs, is_set, n);
        assert forall|k: int| 0 <= k < now.len() implies exists|i: int|
            0 <= i < n && #[trigger] pairs[i] == #[trigger] now[k] && (forall|j: int|
                0 <= j < i ==> (#[trigger] pairs[j]).0 != pairs[i].0) by {
            if k < before.len() {
                assert(now[k] == before[k]);
            } else {
                assert(now[k] == pairs[n - 1]);
            }
        }
        assert forall|i: int, k: int|
            #![trigger pairs[i], now[k]]
            0 <= i < pairs.len() && is_set[i] && 0 <= k < now.len() implies now[k].0
            != pairs[i].0 by {
            if k < before.len() {
                assert(now[k] == before[k]);
            } else {
                assert(now[k] == pairs[n - 1]);
            }
        }
    }
}

} // verus!
