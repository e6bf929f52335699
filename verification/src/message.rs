//! Message bodies and DLT templates.

use crate::bytes::{byte_len, count_bytes};
use crate::config::{Route, RouteView};
use crate::error::{Error, Result};
use crate::search::{find, lemma_find_from, occurs_at, search_from};
use crate::text::{blank, chars_of, copy_opt, is_blank, opt_text, push_chars, str_texts};
use vstd::prelude::*;
use vstd::slice::slice_subrange;
use vstd::std_specs::convert::FromSpecImpl;

verus! {

/// The DLT placeholder token used in approved Indian SMS templates.
pub const VAR: &'static str = "{#var#}";

/// Maximum body length accepted before the client refuses to send.
/// (10 GSM-7 concatenated parts; the gateway itself bills per 153-char part.)
pub const MAX_BODY_LEN: usize = 1530;

// ---------------------------------------------------------------------------
// Templates
// ---------------------------------------------------------------------------

/// A DLT-approved message template with `{#var#}` placeholders.
///
/// `"{#var#} is your OTP. Valid for {#var#} minutes."` has two of them, and
/// renders with `["OTP_CODE", "5"]` to
/// `"OTP_CODE is your OTP. Valid for 5 minutes."`.
#[derive(Debug, Clone, PartialEq, Eq)]
pub struct Template {
    raw: String,
}

impl View for Template {
    type V = Seq<char>;

    closed spec fn view(&self) -> Seq<char> {
        self.raw@
    }
}

/// How many placeholders stand in `s`, from left to right and none inside
/// another.
pub open spec fn placeholders_in(s: Seq<char>) -> nat
    decreases s.len(),
{
    match find(s, VAR@) {
        Some(i) => {
            proof {
                lemma_var();
                lemma_find_from(s, VAR@, 0);
            }
            1 + placeholders_in(s.skip(i + VAR@.len()))
        },
        None => 0,
    }
}

/// `s` with the values in the places of its placeholders, from left to right.
/// Placeholders for which there is no value are left as they are, and values
/// for which there is no placeholder are ignored.
pub open spec fn rendered(s: Seq<char>, values: Seq<Seq<char>>) -> Seq<char>
    decreases values.len(),
{
    match find(s, VAR@) {
        Some(i) if values.len() > 0 => s.take(i) + values[0] + rendered(
            s.skip(i + VAR@.len()),
            values.drop_first(),
        ),
        _ => s,
    }
}

/// The characters of the placeholder.
pub proof fn lemma_var()
    ensures
        VAR@ == seq!['{', '#', 'v', 'a', 'r', '#', '}'],
        VAR@.len() == 7,
{
    reveal_strlit("{#var#}");
    assert(VAR@ =~= seq!['{', '#', 'v', 'a', 'r', '#', '}']);
}

impl Template {
    pub fn new(raw: &str) -> (r: Self)
        ensures
            r@ == raw@,
    {
        Template { raw: raw.to_string() }
    }

    /// The template text, placeholders unexpanded.
    pub fn as_str(&self) -> (r: &str)
        ensures
            r@ == self@,
    {
        self.raw.as_str()
    }

    /// How many `{#var#}` placeholders the template contains.
    pub fn placeholders(&self) -> (r: usize)
        ensures
            r == placeholders_in(self@),
    {
        let s = chars_of(&self.raw);
        let var = chars_of(VAR);
        let total: usize = s.len();
        let mut rest: &[char] = s.as_slice();
        let mut count: usize = 0;
        proof {
            lemma_var();
        }
        loop
            invariant
                var@ == VAR@,
                VAR@.len() == 7,
                count + rest@.len() <= total,
                count + placeholders_in(rest@) == placeholders_in(self@),
            decreases rest@.len(),
        {
            let n: usize = rest.len();
            match search_from(rest, &var, 0) {
                Some(i) => {
                    proof {
                        lemma_find_from(rest@, var@, 0);
                    }
                    assert(rest@.subrange(i + 7, n as int) =~= rest@.skip(i + 7));
                    rest = slice_subrange(rest, i + 7, n);
                    count += 1;
                },
                None => {
                    return count;
                },
            }
        }
    }

    /// Substitutes `vars` into the placeholders, left to right.
    ///
    /// Extra placeholders are left as-is and extra vars are ignored, rather
    /// than erroring: a partially-filled body is easier to spot in gateway
    /// logs than a send that silently never happened.
    pub fn render(&self, vars: &[&str]) -> (r: String)
        ensures
            r@ == rendered(self@, str_texts(vars@)),
    {
        let s = chars_of(&self.raw);
        let var = chars_of(VAR);
        let ghost values = str_texts(vars@);
        let mut rest: &[char] = s.as_slice();
        let mut out = String::new();
        let mut k: usize = 0;
        proof {
            lemma_var();
            assert(values.skip(0) =~= values);
            assert(out@ + rendered(rest@, values) =~= rendered(self@, values));
        }
        while k < vars.len()
            invariant
                k <= vars@.len(),
                var@ == VAR@,
                VAR@.len() == 7,
                values == str_texts(vars@),
                out@ + rendered(rest@, values.skip(k as int)) == rendered(self@, values),
            decreases vars@.len() - k,
        {
            let n: usize = rest.len();
            let ghost before = out@;
            match search_from(rest, &var, 0) {
                Some(i) => {
                    proof {
                        lemma_find_from(rest@, var@, 0);
                    }
                    let head = slice_subrange(rest, 0, i);
                    let tail = slice_subrange(rest, i + 7, n);
                    assert(head@ =~= rest@.take(i as int));
                    assert(tail@ =~= rest@.skip(i + 7));
                    assert(values.skip(k as int)[0] == vars@[k as int]@);
                    assert(values.skip(k as int).drop_first() =~= values.skip(k + 1));
                    push_chars(&mut out, head);
                    out.append(vars[k]);
                    assert(out@ + rendered(tail@, values.skip(k + 1)) =~= before + (head@
                        + vars@[k as int]@ + rendered(tail@, values.skip(k + 1))));
                    rest = tail;
                },
                None => {
                    push_chars(&mut out, rest);
                    return out;
                },
            }
            k += 1;
        }
        push_chars(&mut out, rest);
        out
    }

    /// Renders with a single variable: the common OTP case.
    pub fn render_one(&self, var: &str) -> (r: String)
        ensures
            r@ == rendered(self@, seq![var@]),
    {
        let vars: [&str; 1] = [var];
        assert(str_texts(vars@) =~= seq![var@]);
        self.render(&vars)
    }
}

impl FromSpecImpl<&str> for Template {
    open spec fn obeys_from_spec() -> bool {
        false
    }

    open spec fn from_spec(s: &str) -> Template {
        arbitrary()
    }
}

impl From<&str> for Template {
    fn from(s: &str) -> (r: Self)
        ensures
            r@ == s@,
    {
        Template::new(s)
    }
}

impl FromSpecImpl<String> for Template {
    open spec fn obeys_from_spec() -> bool {
        false
    }

    open spec fn from_spec(s: String) -> Template {
        arbitrary()
    }
}

impl From<String> for Template {
    fn from(s: String) -> (r: Self)
        ensures
            r@ == s@,
    {
        Template { raw: s }
    }
}

// ---------------------------------------------------------------------------
// Messages
// ---------------------------------------------------------------------------

/// One outbound SMS: a recipient plus a body, with optional per-message
/// overrides of the account defaults.
#[derive(Debug, PartialEq, Eq)]
pub struct Message {
    to: String,
    body: String,
    sender_id: Option<String>,
    route: Option<Route>,
    template_id: Option<String>,
    /// Opaque caller-side tag, echoed back on the response. Useful for
    /// correlating the results of a batch, whose sends complete out of order.
    reference: Option<String>,
}

/// The model of a [`Message`].
pub struct MessageView {
    pub to: Seq<char>,
    pub body: Seq<char>,
    pub sender_id: Option<Seq<char>>,
    pub route: Option<RouteView>,
    pub template_id: Option<Seq<char>>,
    pub reference: Option<Seq<char>>,
}

impl View for Message {
    type V = MessageView;

    closed spec fn view(&self) -> MessageView {
        MessageView {
            to: self.to@,
            body: self.body@,
            sender_id: opt_text(self.sender_id),
            route: match self.route {
                Some(route) => Some(route@),
                None => None,
            },
            template_id: opt_text(self.template_id),
            reference: opt_text(self.reference),
        }
    }
}

/// A message with no overrides.
pub open spec fn plain_message(to: Seq<char>, body: Seq<char>) -> MessageView {
    MessageView { to, body, sender_id: None, route: None, template_id: None, reference: None }
}

impl Clone for Message {
    fn clone(&self) -> (r: Self)
        ensures
            r@ == self@,
    {
        Message {
            to: self.to.clone(),
            body: self.body.clone(),
            sender_id: copy_opt(&self.sender_id),
            route: match &self.route {
                Some(route) => Some(route.clone()),
                None => None,
            },
            template_id: copy_opt(&self.template_id),
            reference: copy_opt(&self.reference),
        }
    }
}

/// Why a body is refused, if it is.
pub open spec fn body_fault(body: Seq<char>) -> Option<Seq<char>> {
    if blank(body) {
        Some("body is empty"@)
    } else if byte_len(body) > MAX_BODY_LEN {
        Some("body exceeds the maximum of 1530 bytes"@)
    } else {
        None
    }
}

impl Message {
    /// A message to `to` with the literal text `body`.
    pub fn new(to: &str, body: &str) -> (r: Self)
        ensures
            r@ == plain_message(to@, body@),
    {
        Message {
            to: to.to_string(),
            body: body.to_string(),
            sender_id: None,
            route: None,
            template_id: None,
            reference: None,
        }
    }

    /// A message rendered from a DLT template.
    pub fn from_template(to: &str, template: &Template, vars: &[&str]) -> (r: Self)
        ensures
            r@ == plain_message(to@, rendered(template@, str_texts(vars@))),
    {
        Message::new(to, template.render(vars).as_str())
    }

    /// Override the account sender id for this message only.
    pub fn sender_id(self, sender: &str) -> (r: Self)
        ensures
            r@ == (MessageView { sender_id: Some(sender@), ..self@ }),
    {
        Message { sender_id: Some(sender.to_string()), ..self }
    }

    /// Override the account route for this message only.
    pub fn route(self, route: Route) -> (r: Self)
        ensures
            r@ == (MessageView { route: Some(route@), ..self@ }),
    {
        Message { route: Some(route), ..self }
    }

    /// Override the account DLT template id for this message only.
    pub fn template_id(self, tid: &str) -> (r: Self)
        ensures
            r@ == (MessageView { template_id: Some(tid@), ..self@ }),
    {
        Message { template_id: Some(tid.to_string()), ..self }
    }

    /// Attach a correlation tag echoed back on [`crate::Response::reference`].
    pub fn reference(self, reference: &str) -> (r: Self)
        ensures
            r@ == (MessageView { reference: Some(reference@), ..self@ }),
    {
        Message { reference: Some(reference.to_string()), ..self }
    }

    pub fn recipient(&self) -> (r: &str)
        ensures
            r@ == self@.to,
    {
        self.to.as_str()
    }

    pub fn body(&self) -> (r: &str)
        ensures
            r@ == self@.body,
    {
        self.body.as_str()
    }

    /// The sender id that overrides the account's, if any.
    pub(crate) fn own_sender(&self) -> (r: &Option<String>)
        ensures
            opt_text(*r) == self@.sender_id,
    {
        &self.sender_id
    }

    /// The route that overrides the account's, if any.
    pub(crate) fn own_route(&self) -> (r: &Option<Route>)
        ensures
            match *r {
                Some(route) => self@.route == Some(route@),
                None => self@.route is None,
            },
    {
        &self.route
    }

    /// The template id that overrides the account's, if any.
    pub(crate) fn own_template(&self) -> (r: &Option<String>)
        ensures
            opt_text(*r) == self@.template_id,
    {
        &self.template_id
    }

    /// The correlation tag, if any.
    pub(crate) fn tag(&self) -> (r: &Option<String>)
        ensures
            opt_text(*r) == self@.reference,
    {
        &self.reference
    }

    /// Checks that the body is neither empty nor too long.
    pub fn validate(&self) -> (r: Result<()>)
        ensures
            match r {
                Ok(_) => body_fault(self@.body) is None,
                Err(e) => e matches Error::InvalidMessage(reason) && body_fault(self@.body) == Some(
                    reason@,
                ),
            },
    {
        if is_blank(&chars_of(&self.body)) {
            return Err(Error::InvalidMessage("body is empty"));
        }
        if count_bytes(&self.body) > MAX_BODY_LEN {
            return Err(Error::InvalidMessage("body exceeds the maximum of 1530 bytes"));
        }
        Ok(())
    }
}

// ---------------------------------------------------------------------------
// Laws
// ---------------------------------------------------------------------------

/// The texts before, between and behind the placeholders of `s`.
pub open spec fn fixed_parts(s: Seq<char>) -> Seq<Seq<char>>
    decreases s.len(),
{
    match find(s, VAR@) {
        Some(i) => {
            proof {
                lemma_var();
                lemma_find_from(s, VAR@, 0);
            }
            seq![s.take(i)] + fixed_parts(s.skip(i + VAR@.len()))
        },
        None => seq![s],
    }
}

/// Parts with a value between each two of them, and the placeholder itself where
/// there is no value.
pub open spec fn woven(parts: Seq<Seq<char>>, values: Seq<Seq<char>>) -> Seq<char>
    decreases parts.len(),
{
    if parts.len() == 0 {
        Seq::empty()
    } else if parts.len() == 1 {
        parts[0]
    } else if values.len() > 0 {
        parts[0] + values[0] + woven(parts.drop_first(), values.drop_first())
    } else {
        parts[0] + VAR@ + woven(parts.drop_first(), values)
    }
}

/// Each value fills the placeholder of its place, and only that: the rendered
/// text is the fixed parts of the template with the first value between the
/// first two, and so on. Extra placeholders are left as they are, extra values
/// are ignored, and what a value holds is never taken for a placeholder.
pub proof fn lemma_each_value_fills_one(s: Seq<char>, values: Seq<Seq<char>>)
    ensures
        fixed_parts(s).len() == placeholders_in(s) + 1,
        rendered(s, values) == woven(fixed_parts(s), values),
    decreases s.len(),
{
    lemma_var();
    lemma_find_from(s, VAR@, 0);
    if let Some(i) = find(s, VAR@) {
        let rest = s.skip(i + VAR@.len());
        let parts = fixed_parts(s);
        assert(parts.drop_first() =~= fixed_parts(rest));
        if values.len() > 0 {
            lemma_each_value_fills_one(rest, values.drop_first());
        } else {
            lemma_each_value_fills_one(rest, values);
            assert(rendered(rest, values) == rest);
            assert(s.subrange(i, i + VAR@.len()) == VAR@);
            assert(s =~= s.take(i) + VAR@ + rest);
        }
    }
}

/// Extra values are ignored: those beyond the number of placeholders change
/// nothing.
pub proof fn lemma_extra_values_are_ignored(s: Seq<char>, a: Seq<Seq<char>>, b: Seq<Seq<char>>)
    requires
        a.len() >= placeholders_in(s),
    ensures
        rendered(s, a + b) == rendered(s, a),
    decreases s.len(),
{
    lemma_var();
    lemma_find_from(s, VAR@, 0);
    if let Some(i) = find(s, VAR@) {
        assert((a + b).drop_first() =~= a.drop_first() + b);
        lemma_extra_values_are_ignored(s.skip(i + VAR@.len()), a.drop_first(), b);
    }
}

/// The seven characters of a placeholder stand in the text at `i`.
pub open spec fn placeholder_at(s: Seq<char>, i: int) -> bool {
    &&& 0 <= i
    &&& i + 7 <= s.len()
    &&& s[i] == '{' && s[i + 1] == '#' && s[i + 2] == 'v' && s[i + 3] == 'a' && s[i + 4] == 'r'
        && s[i + 5] == '#' && s[i + 6] == '}'
}

proof fn lemma_placeholder_at(s: Seq<char>, i: int)
    ensures
        placeholder_at(s, i) <==> occurs_at(s, VAR@, i),
{
    lemma_var();
    if 0 <= i && i + 7 <= s.len() {
        let part = s.subrange(i, i + 7);
        if placeholder_at(s, i) {
            assert(part =~= VAR@);
        }
        if part == VAR@ {
            assert(part[0] == s[i] && part[1] == s[i + 1] && part[2] == s[i + 2] && part[3] == s[i
                + 3] && part[4] == s[i + 4] && part[5] == s[i + 5] && part[6] == s[i + 6]);
        }
    }
}

/// A value takes the place of the first placeholder, and the next values go on
/// behind it. What stands around the placeholder stays.
pub proof fn lemma_a_value_takes_the_place_of_a_placeholder(
    s: Seq<char>,
    i: int,
    value: Seq<char>,
    values: Seq<Seq<char>>,
)
    requires
        placeholder_at(s, i),
        forall|j: int| 0 <= j < i ==> !#[trigger] placeholder_at(s, j),
    ensures
        rendered(s, seq![value] + values) == s.take(i) + value + rendered(s.skip(i + 7), values),
        placeholders_in(s) == 1 + placeholders_in(s.skip(i + 7)),
{
    lemma_var();
    lemma_find_from(s, VAR@, 0);
    lemma_placeholder_at(s, i);
    assert(find(s, VAR@) == Some(i)) by {
        if let Some(k) = find(s, VAR@) {
            lemma_placeholder_at(s, k);
            if k < i {
                assert(placeholder_at(s, k));
            }
        }
    }
    assert((seq![value] + values)[0] == value);
    assert((seq![value] + values).drop_first() =~= values);
}

/// A text without placeholders stays as it is, and so does any text where there
/// are no values.
pub proof fn lemma_without_placeholders_nothing_changes(s: Seq<char>, values: Seq<Seq<char>>)
    ensures
        (forall|j: int| !#[trigger] placeholder_at(s, j)) ==> rendered(s, values) == s
            && placeholders_in(s) == 0,
        rendered(s, Seq::empty()) == s,
{
    lemma_find_from(s, VAR@, 0);
    if let Some(k) = find(s, VAR@) {
        lemma_placeholder_at(s, k);
    }
}

/// A body is refused exactly when it is blank, or takes more than 1530 bytes;
/// one of 1530 bytes is still taken.
pub proof fn lemma_which_bodies_are_refused(body: Seq<char>)
    ensures
        body_fault(body) is None <==> !blank(body) && byte_len(body) <= 1530,
        blank(body) ==> body_fault(body) == Some("body is empty"@),
        !blank(body) && byte_len(body) > 1530 ==> body_fault(body) == Some(
            "body exceeds the maximum of 1530 bytes"@,
        ),
{
}

/// A plain message is addressed and worded as it was given, and overrides
/// nothing.
pub proof fn lemma_a_plain_message_overrides_nothing(to: Seq<char>, body: Seq<char>)
    ensures
        plain_message(to, body).to == to,
        plain_message(to, body).body == body,
        plain_message(to, body).sender_id is None,
        plain_message(to, body).route is None,
        plain_message(to, body).template_id is None,
        plain_message(to, body).reference is None,
{
}

} // verus!
