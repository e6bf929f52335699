//! The gateway endpoint: a URL, taken apart.

use crate::bytes::{byte_len, count_bytes, lemma_encode_concat};
use crate::decimal::{decimal, push_decimal};
use crate::form::{
    form_char, form_pair, form_query, form_text, form_text_len, lemma_written_text_is_plain, Pair,
};
use crate::text::{chars_of, copy_opt, opt_text, string_of};
use url::{Position, Url};
use vstd::prelude::*;
use vstd::slice::slice_subrange;

verus! {

/// The parts of a URL that matter for a request.
#[derive(Debug)]
pub struct UrlParts {
    /// Everything before the query and the fragment.
    pub stem: String,
    /// The query behind its `?`; empty where there is none.
    pub query: String,
    /// The fragment behind its `#`; empty where there is none.
    pub fragment: String,
    pub host: Option<String>,
    /// The port, where it is not the usual one of the scheme.
    pub port: Option<u16>,
}

/// The model of [`UrlParts`].
pub struct UrlView {
    pub stem: Seq<char>,
    pub query: Seq<char>,
    pub fragment: Seq<char>,
    pub host: Option<Seq<char>>,
    pub port: Option<u16>,
}

impl View for UrlParts {
    type V = UrlView;

    open spec fn view(&self) -> UrlView {
        UrlView {
            stem: self.stem@,
            query: self.query@,
            fragment: self.fragment@,
            host: opt_text(self.host),
            port: self.port,
        }
    }
}

impl UrlView {
    /// The URL as text.
    pub open spec fn text(self) -> Seq<char> {
        self.stem + self.query + self.fragment
    }

    /// The query without its mark.
    pub open spec fn own_query(self) -> Seq<char> {
        if self.query.len() > 0 {
            self.query.skip(1)
        } else {
            Seq::empty()
        }
    }

    /// The query that a request with these pairs carries: the one that is there
    /// already, and the pairs behind it.
    pub open spec fn request_query(self, pairs: Seq<Pair>) -> Seq<char> {
        form_query(self.own_query(), pairs)
    }

    /// The URL of a request with these pairs.
    pub open spec fn request(self, pairs: Seq<Pair>) -> Seq<char> {
        self.stem + seq!['?'] + self.request_query(pairs) + self.fragment
    }

    /// The positions of a request with these pairs fit into 32 bits: that of the
    /// `?` where one has to be written, and that of the fragment where there is
    /// one, before the pairs are added and after.
    pub open spec fn has_room(self, pairs: Seq<Pair>) -> bool {
        if self.fragment.len() > 0 {
            &&& byte_len(self.stem) + byte_len(self.query) < u32::MAX
            &&& byte_len(self.stem) + 1 + byte_len(self.request_query(pairs)) <= u32::MAX
        } else {
            self.query.len() == 0 ==> byte_len(self.stem) <= u32::MAX
        }
    }
}

impl UrlView {
    /// The host, or `name` where there is none.
    pub open spec fn host_or(self, name: Seq<char>) -> Seq<char> {
        match self.host {
            Some(host) => host,
            None => name,
        }
    }

    /// `host:port`, the host alone where the port is the usual one, or `name`
    /// where there is no host.
    pub open spec fn label(self, name: Seq<char>) -> Seq<char> {
        match (self.host, self.port) {
            (Some(host), Some(port)) => host + ":"@ + decimal(port as nat),
            (Some(host), None) => host,
            (None, _) => name,
        }
    }
}

impl UrlParts {
    /// The URL as text.
    pub fn as_text(&self) -> (r: String)
        ensures
            r@ == self@.text(),
    {
        let mut out = self.stem.clone();
        out.append(self.query.as_str());
        out.append(self.fragment.as_str());
        out
    }

    /// The host, or `name` where there is none.
    pub fn host_or(&self, name: &str) -> (r: String)
        ensures
            r@ == self@.host_or(name@),
    {
        match &self.host {
            Some(host) => host.clone(),
            None => name.to_string(),
        }
    }

    /// `host:port`, the host alone where the port is the usual one, or `name`
    /// where there is no host.
    pub fn label(&self, name: &str) -> (r: String)
        ensures
            r@ == self@.label(name@),
    {
        match &self.host {
            Some(host) => {
                let mut out = host.clone();
                if let Some(port) = self.port {
                    out.append(":");
                    push_decimal(&mut out, port as u128);
                }
                out
            },
            None => name.to_string(),
        }
    }
}

/// How many characters it takes to write pairs, each with its `=` and a `&`.
pub open spec fn pairs_size(pairs: Seq<Pair>) -> nat
    decreases pairs.len(),
{
    if pairs.len() == 0 {
        0
    } else {
        form_text(pairs[0].0).len() + form_text(pairs[0].1).len() + 2 + pairs_size(
            pairs.drop_first(),
        )
    }
}

/// Text in ASCII takes a byte for each character.
proof fn lemma_ascii_byte_len(s: Seq<char>)
    requires
        forall|i: int| 0 <= i < s.len() ==> (#[trigger] s[i]) as u32 <= 0x7f,
    ensures
        byte_len(s) == s.len(),
    decreases s.len(),
{
    if s.len() > 0 {
        let rest = s.drop_first();
        assert(forall|i: int| 0 <= i < rest.len() ==> rest[i] == s[i + 1]);
        lemma_ascii_byte_len(rest);
        assert(s[0] as u32 <= 0x7f);
    }
}

/// How many bytes a query takes behind which pairs are written: the first of
/// them needs no `&` where the query is empty.
proof fn lemma_query_size(query: Seq<char>, pairs: Seq<Pair>)
    ensures
        byte_len(form_query(query, pairs)) + (if query.len() == 0 && pairs.len() > 0 {
            1nat
        } else {
            0
        }) == byte_len(query) + pairs_size(pairs),
    decreases pairs.len(),
{
    if pairs.len() > 0 {
        let before = if query.len() > 0 {
            query.push('&')
        } else {
            query
        };
        let written = form_pair(pairs[0]);
        let name = form_text(pairs[0].0);
        let value = form_text(pairs[0].1);
        lemma_written_text_is_plain(pairs[0].0);
        lemma_written_text_is_plain(pairs[0].1);
        assert forall|i: int| 0 <= i < written.len() implies (#[trigger] written[i]) as u32
            <= 0x7f by {
            if i < name.len() {
                assert(form_char(name[i]));
            } else if i > name.len() {
                assert(form_char(value[i - name.len() - 1]));
            }
        }
        lemma_ascii_byte_len(written);
        lemma_encode_concat(before, written);
        if query.len() > 0 {
            assert(query.push('&') =~= query + seq!['&']);
            lemma_encode_concat(query, seq!['&']);
            lemma_ascii_byte_len(seq!['&']);
        }
        lemma_query_size(before + written, pairs.drop_first());
    }
}

/// Only empty text takes no bytes.
proof fn lemma_bytes_of_nothing(s: Seq<char>)
    ensures
        byte_len(s) == 0 <==> s.len() == 0,
{
}

/// The pairs of a list.
pub open spec fn pairs_view(pairs: Seq<(&str, &str)>) -> Seq<Pair> {
    Seq::new(pairs.len(), |i: int| (pairs[i].0@, pairs[i].1@))
}

/// What `Url::parse` makes of a text: the parts of the URL, or the message of
/// its error.
pub uninterp spec fn parsed_url(text: Seq<char>) -> std::result::Result<UrlView, Seq<char>>;

/// `Url::parse`. What it returns is a function of the text alone, and is named
/// [`parsed_url`]. The parts are what the URL shows up to `Position::AfterPath`,
/// from there to `Position::AfterQuery`, and from there to its end, and what
/// `host_str` and `port` return.
#[verifier::external_body]
pub(crate) fn read_url(text: &str) -> (r: std::result::Result<UrlParts, String>)
    ensures
        match r {
            Ok(parts) => parsed_url(text@) == Ok::<UrlView, Seq<char>>(parts@),
            Err(why) => parsed_url(text@) == Err::<UrlView, Seq<char>>(why@),
        },
{
    match Url::parse(text) {
        Ok(url) => Ok(UrlParts {
            stem: url[..Position::AfterPath].to_string(),
            query: url[Position::AfterPath..Position::AfterQuery].to_string(),
            fragment: url[Position::AfterQuery..].to_string(),
            host: url.host_str().map(str::to_string),
            port: url.port(),
        }),
        Err(error) => Err(error.to_string()),
    }
}

/// `Url::parse_with_params`, on a text that `Url::parse` accepts. The query is
/// extended by the pairs in `application/x-www-form-urlencoded` form, each
/// behind a `&` unless the query is still empty; a URL without a query gets
/// one; all else stays. The positions that a URL keeps of its `?` and its `#`
/// are 32-bit numbers. The call panics where the `?` that it writes or the
/// fragment that it moves stands beyond them, and, where overflow is checked,
/// where the fragment stands at the last of them before it is moved.
#[verifier::external_body]
pub(crate) fn add_params(text: &str, pairs: &Vec<(&str, &str)>) -> (r: String)
    requires
        parsed_url(text@) is Ok,
        parsed_url(text@)->Ok_0.has_room(pairs_view(pairs@)),
    ensures
        r@ == parsed_url(text@)->Ok_0.request(pairs_view(pairs@)),
{
    match Url::parse_with_params(text, pairs) {
        Ok(url) => url.to_string(),
        Err(error) => error.to_string(),
    }
}

/// A URL that requests can be made from.
#[derive(Debug)]
pub struct Endpoint {
    text: String,
    parts: UrlParts,
}

impl View for Endpoint {
    type V = UrlView;

    closed spec fn view(&self) -> UrlView {
        self.parts@
    }
}

impl Clone for Endpoint {
    fn clone(&self) -> (r: Self)
        ensures
            r@ == self@,
            r.source() == self.source(),
    {
        proof {
            use_type_invariant(self);
        }
        let parts = UrlParts {
            stem: self.parts.stem.clone(),
            query: self.parts.query.clone(),
            fragment: self.parts.fragment.clone(),
            host: copy_opt(&self.parts.host),
            port: self.parts.port,
        };
        Endpoint { text: self.text.clone(), parts }
    }
}

impl Endpoint {
    /// The text that the URL was read from.
    pub closed spec fn source(self) -> Seq<char> {
        self.text@
    }

    #[verifier::type_invariant]
    spec fn well_formed(self) -> bool {
        parsed_url(self.text@) == Ok::<UrlView, Seq<char>>(self.parts@)
    }

    /// Reads a URL; an error comes with its message.
    pub fn parse(text: &str) -> (r: std::result::Result<Endpoint, String>)
        ensures
            match r {
                Ok(endpoint) => endpoint.source() == text@ && parsed_url(text@) == Ok::<
                    UrlView,
                    Seq<char>,
                >(endpoint@),
                Err(why) => parsed_url(text@) == Err::<UrlView, Seq<char>>(why@),
            },
    {
        match read_url(text) {
            Ok(parts) => Ok(Endpoint { text: text.to_string(), parts }),
            Err(why) => Err(why),
        }
    }

    /// The parts of the URL.
    pub fn parts(&self) -> (r: &UrlParts)
        ensures
            r@ == self@,
    {
        &self.parts
    }

    /// The query without its mark.
    fn own_query(&self) -> (r: String)
        ensures
            r@ == self@.own_query(),
    {
        let chars = chars_of(&self.parts.query);
        let n: usize = chars.len();
        if n == 0 {
            return String::new();
        }
        assert(chars@.subrange(1, n as int) =~= chars@.skip(1));
        string_of(slice_subrange(chars.as_slice(), 1, n))
    }

    /// Whether a request with these pairs fits into a URL.
    pub fn has_room(&self, pairs: &Vec<(&str, &str)>) -> (r: bool)
        ensures
            r == self@.has_room(pairs_view(pairs@)),
    {
        let max: u128 = u32::MAX as u128;
        let stem: u128 = count_bytes(&self.parts.stem) as u128;
        let query: u128 = count_bytes(&self.parts.query) as u128;
        proof {
            lemma_bytes_of_nothing(self@.query);
            lemma_bytes_of_nothing(self@.fragment);
        }
        if count_bytes(&self.parts.fragment) == 0 {
            return query > 0 || stem <= max;
        }
        if stem + query >= max {
            return false;
        }
        let own = self.own_query();
        let own_bytes: u128 = count_bytes(&own) as u128;
        let spared: u128 = if own_bytes == 0 && pairs.len() > 0 {
            1
        } else {
            0
        };
        let ghost all = pairs_view(pairs@);
        let ghost whole: nat = (stem + 1 + own_bytes + pairs_size(all)) as nat;
        proof {
            lemma_bytes_of_nothing(own@);
            lemma_query_size(own@, all);
        }
        let mut total: u128 = stem + 1 + own_bytes;
        let mut i: usize = 0;
        assert(all.skip(0) =~= all);
        while i < pairs.len()
            invariant
                i <= pairs@.len(),
                all == pairs_view(pairs@),
                total + pairs_size(all.skip(i as int)) == whole,
                max == u32::MAX,
                spared <= 1,
                self@.has_room(all) == (whole <= max + spared),
                total <= max + 7 * usize::MAX + 3,
            decreases pairs@.len() - i,
        {
            if total > max + 1 {
                return false;
            }
            let name: u128 = form_text_len(pairs[i].0);
            let value: u128 = form_text_len(pairs[i].1);
            assert(all.skip(i as int)[0] == all[i as int]);
            assert(all.skip(i as int).drop_first() =~= all.skip(i + 1));
            total += name + value + 2;
            i += 1;
        }
        total <= max + spared
    }

    /// The URL of a request with these pairs.
    pub fn request(&self, pairs: &Vec<(&str, &str)>) -> (r: String)
        requires
            self@.has_room(pairs_view(pairs@)),
        ensures
            r@ == self@.request(pairs_view(pairs@)),
    {
        proof {
            use_type_invariant(&*self);
        }
        add_params(self.text.as_str(), pairs)
    }
}

} // verus!
