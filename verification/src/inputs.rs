//! What the tool reads.
//!
//! The laws of flags, environment variables, files and standard input.

use crate::cli::{
    assignments, fallback_account, job_body, job_numbers, line_assignment, line_number,
    line_numbers, lines, new_assignments, picked, resolved_config, Job,
};
use crate::config::{route_named, ConfigView, Settings};
use crate::form::Pair;
use crate::message::{
    lemma_a_value_takes_the_place_of_a_placeholder, lemma_without_placeholders_nothing_changes,
    placeholder_at,
};
use crate::search::{
    first_where, lemma_cut_first, lemma_first_where, lemma_no_cut, lemma_pieces_of_join,
    starts_with,
};
use crate::text::{
    among, blank, lemma_blank_iff_trimmed_empty, lemma_strip_back_wrapped, lemma_strip_wrapped,
    strip_back, texts, trimmed,
};
use vstd::prelude::*;

verus! {

// ---------------------------------------------------------------------------
// Settings
// ---------------------------------------------------------------------------

/// A flag that is given wins over the environment, even if it is blank; the
/// environment fills in where no flag is given. White space around a setting
/// goes, and a blank one counts as not set.
pub proof fn lemma_flags_win(flag: Option<String>, variable: Option<String>)
    ensures
        flag matches Some(v) ==> (if blank(v@) {
            picked(flag, variable) is None
        } else {
            picked(flag, variable) == Some(trimmed(v@))
        }),
        flag is None ==> (variable matches Some(v) ==> (if blank(v@) {
            picked(flag, variable) is None
        } else {
            picked(flag, variable) == Some(trimmed(v@))
        })),
        flag is None && variable is None ==> picked(flag, variable) is None,
{
    if let Some(v) = flag {
        lemma_blank_iff_trimmed_empty(v@);
    } else if let Some(v) = variable {
        lemma_blank_iff_trimmed_empty(v@);
    }
}

/// The setting that a flag and a variable come to, if any.
pub open spec fn set_by(flag: Option<String>, variable: Option<String>) -> Option<Seq<char>> {
    let given = match flag {
        Some(v) => Some(v),
        None => variable,
    };
    match given {
        Some(v) => if blank(v@) {
            None
        } else {
            Some(trimmed(v@))
        },
        None => None,
    }
}

/// Each flag, with the variable of the same name behind it, sets its own field
/// of the account. The three that are required are asked for in order, the
/// others have defaults.
pub proof fn lemma_each_setting_reaches_its_field(flags: Settings, env: Settings)
    ensures
        ({
            let username = set_by(flags.username, env.username);
            let api_key = set_by(flags.api_key, env.api_key);
            let sender_id = set_by(flags.sender_id, env.sender_id);
            let result = resolved_config(flags, env);
            &&& username is None ==> result == Err::<ConfigView, Seq<char>>("username"@)
            &&& username is Some && api_key is None ==> result == Err::<ConfigView, Seq<char>>(
                "api_key"@,
            )
            &&& username is Some && api_key is Some && sender_id is None ==> result == Err::<
                ConfigView,
                Seq<char>,
            >("sender_id"@)
            &&& username is Some && api_key is Some && sender_id is Some ==> (result matches Ok(
                config,
            ) && {
                &&& Some(config.username) == username
                &&& Some(config.api_key) == api_key
                &&& Some(config.sender_id) == sender_id
                &&& set_by(flags.base_url, env.base_url) matches Some(url) ==> config.base_url
                    == url
                &&& set_by(flags.base_url, env.base_url) is None ==> config.base_url
                    == "https://mdssend.in/api.php"@
                &&& set_by(flags.route, env.route) matches Some(route) ==> config.route
                    == route_named(route)
                &&& set_by(flags.route, env.route) is None ==> config.route is Transactional
                &&& config.template_id == set_by(flags.template_id, env.template_id)
                &&& config.entity_id == set_by(flags.entity_id, env.entity_id)
                &&& config.default_country_code == set_by(flags.country_code, env.country_code)
            })
        }),
{
    lemma_flags_win(flags.username, env.username);
    lemma_flags_win(flags.api_key, env.api_key);
    lemma_flags_win(flags.sender_id, env.sender_id);
    lemma_flags_win(flags.base_url, env.base_url);
    lemma_flags_win(flags.route, env.route);
    lemma_flags_win(flags.template_id, env.template_id);
    lemma_flags_win(flags.entity_id, env.entity_id);
    lemma_flags_win(flags.country_code, env.country_code);
}

/// The fallback is the same account on another URL. It has a template id of its
/// own where one is given, by flag before environment, and else the account's.
pub proof fn lemma_the_fallback_reuses_the_account(
    config: ConfigView,
    url: Seq<char>,
    flag: Option<Seq<char>>,
    variable: Option<Seq<char>>,
)
    ensures
        ({
            let second = fallback_account(config, url, flag, variable);
            &&& second.base_url == url
            &&& second.username == config.username
            &&& second.api_key == config.api_key
            &&& second.sender_id == config.sender_id
            &&& second.route == config.route
            &&& second.entity_id == config.entity_id
            &&& second.default_country_code == config.default_country_code
            &&& flag is Some ==> second.template_id == flag
            &&& flag is None && variable is Some ==> second.template_id == variable
            &&& flag is None && variable is None ==> second.template_id == config.template_id
        }),
{
}

// ---------------------------------------------------------------------------
// Files
// ---------------------------------------------------------------------------

/// A file is read line by line.
proof fn lemma_lines(a: Seq<char>, b: Seq<char>)
    ensures
        lines(a + seq!['\n'] + b) == lines(a) + lines(b),
        (forall|i: int| 0 <= i < a.len() ==> #[trigger] a[i] != '\n') ==> lines(a) == seq![a],
{
    let p = among(seq!['\n']);
    assert(seq!['\n'][0] == '\n');
    lemma_pieces_of_join(a, '\n', b, p);
    if forall|i: int| 0 <= i < a.len() ==> #[trigger] a[i] != '\n' {
        lemma_first_where(a, p);
        if let Some(i) = first_where(a, p) {
            assert(a[i] == '\n');
        }
        assert(lines(a) =~= seq![a]);
    }
}

proof fn lemma_assignments_of_concat(a: Seq<Seq<char>>, b: Seq<Seq<char>>, n: nat)
    requires
        n <= b.len(),
    ensures
        assignments(a + b, a.len() + n) == assignments(a, a.len()) + assignments(b, n),
    decreases n,
{
    if n == 0 {
        lemma_assignments_of_prefix(a, b, a.len());
        assert(assignments(a, a.len()) + assignments(b, 0) =~= assignments(a, a.len()));
    } else {
        lemma_assignments_of_concat(a, b, (n - 1) as nat);
        assert((a + b)[a.len() + n - 1] == b[n - 1]);
        assert(assignments(a + b, a.len() + n) =~= assignments(a, a.len()) + assignments(b, n));
    }
}

proof fn lemma_assignments_of_prefix(a: Seq<Seq<char>>, b: Seq<Seq<char>>, n: nat)
    requires
        n <= a.len(),
    ensures
        assignments(a + b, n) == assignments(a, n),
    decreases n,
{
    if n > 0 {
        lemma_assignments_of_prefix(a, b, (n - 1) as nat);
        assert((a + b)[n - 1] == a[n - 1]);
    }
}

/// An environment file gives the assignments of its lines, in order, each line
/// on its own.
pub proof fn lemma_an_environment_file_is_read_by_lines(a: Seq<char>, b: Seq<char>)
    ensures
        ({
            let whole = lines(a + seq!['\n'] + b);
            assignments(whole, whole.len()) == assignments(lines(a), lines(a).len()) + assignments(
                lines(b),
                lines(b).len(),
            )
        }),
        (forall|i: int| 0 <= i < a.len() ==> #[trigger] a[i] != '\n') ==> assignments(
            lines(a),
            lines(a).len(),
        ) == (match line_assignment(a) {
            Some(pair) => seq![pair],
            None => Seq::empty(),
        }),
{
    lemma_lines(a, b);
    lemma_assignments_of_concat(lines(a), lines(b), lines(b).len());
    assert((lines(a) + lines(b)).len() == lines(a).len() + lines(b).len());
    if forall|i: int| 0 <= i < a.len() ==> #[trigger] a[i] != '\n' {
        reveal_with_fuel(assignments, 2);
        assert(assignments(lines(a), 1) =~= (match line_assignment(a) {
            Some(pair) => seq![pair],
            None => Seq::empty(),
        }));
    }
}

/// A quote, single or double.
pub open spec fn quote_mark(c: char) -> bool {
    c == '"' || c == '\''
}

/// The text starts with `export` and a space.
pub open spec fn exported(s: Seq<char>) -> bool {
    s.len() >= 7 && s[0] == 'e' && s[1] == 'x' && s[2] == 'p' && s[3] == 'o' && s[4] == 'r' && s[5]
        == 't' && s[6] == ' '
}

proof fn lemma_exported(s: Seq<char>)
    ensures
        starts_with(s, "export "@) <==> exported(s),
        "export "@.len() == 7,
{
    reveal_strlit("export ");
    let word = "export "@;
    if s.len() >= 7 {
        let part = s.subrange(0, 7);
        if exported(s) {
            assert(part =~= word);
        }
        if part == word {
            assert(part[0] == s[0] && part[1] == s[1] && part[2] == s[2] && part[3] == s[3]
                && part[4] == s[4] && part[5] == s[5] && part[6] == s[6]);
        }
    }
}

/// A line `KEY=VALUE` of an environment file assigns the value to the key, with
/// or without `export ` in front. White space around either goes, and then the
/// quotes around the value.
pub proof fn lemma_what_a_line_assigns(
    line: Seq<char>,
    key: Seq<char>,
    value: Seq<char>,
    before: Seq<char>,
    core: Seq<char>,
    after: Seq<char>,
)
    requires
        trimmed(line).len() > 0,
        trimmed(line)[0] != '#',
        exported(trimmed(line)) ==> trimmed(line).skip(7) == key + seq!['='] + value,
        !exported(trimmed(line)) ==> trimmed(line) == key + seq!['='] + value,
        forall|i: int| 0 <= i < key.len() ==> #[trigger] key[i] != '=',
        trimmed(value) == before + core + after,
        forall|i: int| 0 <= i < before.len() ==> quote_mark(#[trigger] before[i]),
        forall|i: int| 0 <= i < after.len() ==> quote_mark(#[trigger] after[i]),
        core.len() > 0 ==> !quote_mark(core[0]) && !quote_mark(core.last()),
    ensures
        line_assignment(line) == Some((trimmed(key), core)),
{
    let p = among(seq!['"', '\'']);
    let marks = seq!['"', '\''];
    assert(marks[0] == '"' && marks[1] == '\'');
    assert forall|i: int| 0 <= i < before.len() implies p(#[trigger] before[i]) by {
        assert(quote_mark(before[i]));
    }
    assert forall|i: int| 0 <= i < after.len() implies p(#[trigger] after[i]) by {
        assert(quote_mark(after[i]));
    }
    lemma_exported(trimmed(line));
    lemma_cut_first(key, '=', value);
    lemma_strip_wrapped(before, core, after, p);
}

/// Blank lines, comments and lines without `=` assign nothing.
pub proof fn lemma_what_assigns_nothing(line: Seq<char>)
    ensures
        blank(line) ==> line_assignment(line) is None,
        trimmed(line).len() > 0 && trimmed(line)[0] == '#' ==> line_assignment(line) is None,
        (forall|i: int| 0 <= i < trimmed(line).len() ==> #[trigger] trimmed(line)[i] != '=')
            ==> line_assignment(line) is None,
{
    lemma_blank_iff_trimmed_empty(line);
    let text = trimmed(line);
    if forall|i: int| 0 <= i < text.len() ==> #[trigger] text[i] != '=' {
        lemma_exported(text);
        lemma_no_cut(text, '=');
        if exported(text) {
            let rest = text.skip(7);
            assert forall|i: int| 0 <= i < rest.len() implies #[trigger] rest[i] != '=' by {
                assert(rest[i] == text[i + 7]);
            }
            lemma_no_cut(rest, '=');
        }
    }
}

/// Every assignment to a variable that is not set yet takes effect, unless one
/// before it did.
pub proof fn lemma_new_assignments_are_kept(pairs: Seq<Pair>, is_set: Seq<bool>, n: nat, i: int)
    requires
        0 <= i < n <= pairs.len(),
        is_set.len() == pairs.len(),
        !is_set[i],
        forall|j: int| 0 <= j < i ==> (#[trigger] pairs[j]).0 != pairs[i].0,
    ensures
        new_assignments(pairs, is_set, n).contains(pairs[i]),
    decreases n,
{
    let before = new_assignments(pairs, is_set, (n - 1) as nat);
    let now = new_assignments(pairs, is_set, n);
    if i == n - 1 {
        assert(now.last() == pairs[i]);
        assert(now[now.len() - 1] == pairs[i]);
    } else {
        lemma_new_assignments_are_kept(pairs, is_set, (n - 1) as nat, i);
        let k = choose|k: int| 0 <= k < before.len() && before[k] == pairs[i];
        assert(now[k] == before[k]);
    }
}

/// A line of a file of recipients holds the number before the first `#`, or all
/// of it, trimmed.
pub proof fn lemma_the_number_on_a_line(number: Seq<char>, comment: Seq<char>)
    requires
        forall|i: int| 0 <= i < number.len() ==> #[trigger] number[i] != '#',
    ensures
        line_number(number) == trimmed(number),
        line_number(number + seq!['#'] + comment) == trimmed(number),
{
    lemma_no_cut(number, '#');
    lemma_cut_first(number, '#', comment);
}

proof fn lemma_numbers_of_concat(a: Seq<Seq<char>>, b: Seq<Seq<char>>, n: nat)
    requires
        n <= b.len(),
    ensures
        line_numbers(a + b, a.len() + n) == line_numbers(a, a.len()) + line_numbers(b, n),
    decreases n,
{
    if n == 0 {
        lemma_numbers_of_prefix(a, b, a.len());
        assert(line_numbers(a, a.len()) + line_numbers(b, 0) =~= line_numbers(a, a.len()));
    } else {
        lemma_numbers_of_concat(a, b, (n - 1) as nat);
        assert((a + b)[a.len() + n - 1] == b[n - 1]);
        assert(line_numbers(a + b, a.len() + n) =~= line_numbers(a, a.len()) + line_numbers(b, n));
    }
}

proof fn lemma_numbers_of_prefix(a: Seq<Seq<char>>, b: Seq<Seq<char>>, n: nat)
    requires
        n <= a.len(),
    ensures
        line_numbers(a + b, n) == line_numbers(a, n),
    decreases n,
{
    if n > 0 {
        lemma_numbers_of_prefix(a, b, (n - 1) as nat);
        assert((a + b)[n - 1] == a[n - 1]);
    }
}

/// A file of recipients gives the numbers of its lines, in order, and none for a
/// line without one.
pub proof fn lemma_a_number_file_is_read_by_lines(a: Seq<char>, b: Seq<char>)
    ensures
        ({
            let whole = lines(a + seq!['\n'] + b);
            line_numbers(whole, whole.len()) == line_numbers(lines(a), lines(a).len())
                + line_numbers(lines(b), lines(b).len())
        }),
        (forall|i: int| 0 <= i < a.len() ==> #[trigger] a[i] != '\n') ==> line_numbers(
            lines(a),
            lines(a).len(),
        ) == (if line_number(a).len() > 0 {
            seq![line_number(a)]
        } else {
            Seq::empty()
        }),
{
    lemma_lines(a, b);
    lemma_numbers_of_concat(lines(a), lines(b), lines(b).len());
    assert((lines(a) + lines(b)).len() == lines(a).len() + lines(b).len());
    if forall|i: int| 0 <= i < a.len() ==> #[trigger] a[i] != '\n' {
        reveal_with_fuel(line_numbers, 2);
        assert(line_numbers(lines(a), 1) =~= (if line_number(a).len() > 0 {
            seq![line_number(a)]
        } else {
            Seq::empty()
        }));
    }
}

// ---------------------------------------------------------------------------
// Messages
// ---------------------------------------------------------------------------

/// A body from standard input loses the line breaks at its end and nothing else.
pub proof fn lemma_line_breaks_at_the_end_go(body: Seq<char>, breaks: Seq<char>)
    requires
        body.len() > 0,
        body.last() != '\n',
        forall|i: int| 0 <= i < breaks.len() ==> #[trigger] breaks[i] == '\n',
    ensures
        strip_back(body + breaks, among(seq!['\n'])) == body,
{
    let p = among(seq!['\n']);
    assert(seq!['\n'][0] == '\n');
    assert forall|i: int| 0 <= i < breaks.len() implies p(#[trigger] breaks[i]) by {
        assert(breaks[i] == '\n');
    }
    lemma_strip_back_wrapped(body, breaks, p);
}

/// A one-time password is sent in the place of the first placeholder of its
/// template, and to the numbers that were given.
pub proof fn lemma_a_code_fills_its_template(job: Job, i: int)
    requires
        job is Otp,
    ensures
        placeholder_at(job->template@, i) && (forall|j: int|
            0 <= j < i ==> !#[trigger] placeholder_at(job->template@, j)) ==> job_body(job)
            == job->template@.take(i) + job->code@ + job->template@.skip(i + 7),
        (forall|j: int| !#[trigger] placeholder_at(job->template@, j)) ==> job_body(job)
            == job->template@,
        job matches Job::Otp { to, .. } ==> job_numbers(job) == texts(to@),
{
    let template = job->template@;
    let code = job->code@;
    let none = Seq::<Seq<char>>::empty();
    assert(seq![code] =~= seq![code] + none);
    lemma_without_placeholders_nothing_changes(template, seq![code]);
    if placeholder_at(template, i) && (forall|j: int|
        0 <= j < i ==> !#[trigger] placeholder_at(template, j)) {
        lemma_a_value_takes_the_place_of_a_placeholder(template, i, code, none);
        lemma_without_placeholders_nothing_changes(template.skip(i + 7), none);
    }
}

/// A body is sent as it was given, to the numbers that were given or that the
/// file holds.
pub proof fn lemma_a_body_is_sent_as_it_is(job: Job)
    ensures
        job matches Job::Send { to, body } ==> job_body(job) == body@ && job_numbers(job) == texts(
            to@,
        ),
        job matches Job::Bulk { content, body } ==> job_body(job) == body@ && job_numbers(job)
            == line_numbers(lines(content@), lines(content@).len()),
{
}

} // verus!
