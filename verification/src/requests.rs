//! What a request carries.
//!
//! The laws of the parameters that a client sends, by name and value.

use crate::bytes::{byte_len, lemma_encode_concat};
use crate::client::{
    build_error, built, default_builder, default_client, request_pairs, BuilderView, ClientView,
};
use crate::config::{
    environment_config, missing_field, normalized_number, route_named, ConfigView, RouteView, Settings,
};
use crate::decimal::decimal;
use crate::duration::duration_nanos;
use crate::endpoint::UrlView;
use crate::error::Error;
use crate::form::{form_pair, form_query, form_text, Pair};
use crate::message::{body_fault, MessageView};
use crate::send::room_for;
use crate::text::{
    blank, lemma_blank_iff_trimmed_empty, lemma_trimmed_of_padded, lemma_trimmed_stays, opt_text,
    raised, white_space,
};
use vstd::prelude::*;
use vstd::utf8::encode_utf8;

verus! {

/// The pairs of that name, in order.
pub open spec fn named(pairs: Seq<Pair>, name: Seq<char>) -> Seq<Pair> {
    pairs.filter(|pair: Pair| pair.0 == name)
}

/// The value that the message sets, or else the account's.
pub open spec fn own_or<T>(message: Option<T>, account: T) -> T {
    match message {
        Some(value) => value,
        None => account,
    }
}

proof fn lemma_named_of_concat(a: Seq<Pair>, b: Seq<Pair>, name: Seq<char>)
    ensures
        named(a + b, name) == named(a, name) + named(b, name),
    decreases b.len(),
{
    reveal(Seq::filter);
    if b.len() == 0 {
        assert(a + b =~= a);
        assert(named(a, name) + named(b, name) =~= named(a, name));
    } else {
        assert((a + b).drop_last() =~= a + b.drop_last());
        lemma_named_of_concat(a, b.drop_last(), name);
        assert(named(a + b, name) =~= named(a, name) + named(b, name));
    }
}

proof fn lemma_named_of_one(pair: Pair, name: Seq<char>)
    ensures
        named(seq![pair], name) == (if pair.0 == name {
            seq![pair]
        } else {
            Seq::empty()
        }),
        named(Seq::<Pair>::empty(), name) == Seq::<Pair>::empty(),
{
    reveal(Seq::filter);
    assert(seq![pair].drop_last() =~= Seq::<Pair>::empty());
    assert(named(Seq::<Pair>::empty(), name) =~= Seq::<Pair>::empty());
    assert(named(seq![pair], name) =~= (if pair.0 == name {
        seq![pair]
    } else {
        Seq::empty()
    })) by {
        reveal_with_fuel(Seq::<Pair>::filter, 2);
    }
}

/// The names of the parameters are all different.
proof fn lemma_names_differ()
    ensures
        ({
            let names = seq![
                "username"@,
                "apikey"@,
                "senderid"@,
                "route"@,
                "text"@,
                "mobile"@,
                "TID"@,
                "PEID"@,
            ];
            forall|i: int, j: int|
                0 <= i < j < 8 ==> #[trigger] names[i] != #[trigger] names[j]
        }),
{
    reveal_strlit("username");
    reveal_strlit("apikey");
    reveal_strlit("senderid");
    reveal_strlit("route");
    reveal_strlit("text");
    reveal_strlit("mobile");
    reveal_strlit("TID");
    reveal_strlit("PEID");
    assert("username"@[0] == 'u' && "username"@.len() == 8);
    assert("apikey"@[0] == 'a' && "apikey"@.len() == 6);
    assert("senderid"@[0] == 's' && "senderid"@.len() == 8);
    assert("route"@.len() == 5);
    assert("text"@[0] == 't' && "text"@.len() == 4);
    assert("mobile"@[0] == 'm' && "mobile"@.len() == 6);
    assert("TID"@.len() == 3);
    assert("PEID"@[0] == 'P' && "PEID"@.len() == 4);
}

/// The pairs of a request split into single ones.
proof fn lemma_pairs_apart(config: ConfigView, message: MessageView, to: Seq<char>, name: Seq<char>)
    ensures
        ({
            let template = match message.template_id {
                Some(tid) => Some(tid),
                None => config.template_id,
            };
            let one = |pair: Pair| named(seq![pair], name);
            named(request_pairs(config, message, to), name) == one(("username"@, config.username))
                + one(("apikey"@, config.api_key)) + one(
                ("senderid"@, own_or(message.sender_id, config.sender_id)),
            ) + one(("route"@, own_or(message.route, config.route).text())) + one(
                ("text"@, message.body),
            ) + one(("mobile"@, to)) + (match template {
                Some(tid) => one(("TID"@, tid)),
                None => Seq::empty(),
            }) + (match config.entity_id {
                Some(peid) => one(("PEID"@, peid)),
                None => Seq::empty(),
            })
        }),
{
    let pairs = request_pairs(config, message, to);
    let sender = own_or(message.sender_id, config.sender_id);
    let route = own_or(message.route, config.route).text();
    let template = match message.template_id {
        Some(tid) => Some(tid),
        None => config.template_id,
    };
    let tid = match template {
        Some(tid) => seq![("TID"@, tid)],
        None => Seq::<Pair>::empty(),
    };
    let peid = match config.entity_id {
        Some(peid) => seq![("PEID"@, peid)],
        None => Seq::<Pair>::empty(),
    };
    let p1 = seq![("username"@, config.username)];
    let p2 = seq![("apikey"@, config.api_key)];
    let p3 = seq![("senderid"@, sender)];
    let p4 = seq![("route"@, route)];
    let p5 = seq![("text"@, message.body)];
    let p6 = seq![("mobile"@, to)];
    assert(pairs =~= p1 + p2 + p3 + p4 + p5 + p6 + tid + peid);
    lemma_named_of_concat(p1, p2, name);
    lemma_named_of_concat(p1 + p2, p3, name);
    lemma_named_of_concat(p1 + p2 + p3, p4, name);
    lemma_named_of_concat(p1 + p2 + p3 + p4, p5, name);
    lemma_named_of_concat(p1 + p2 + p3 + p4 + p5, p6, name);
    lemma_named_of_concat(p1 + p2 + p3 + p4 + p5 + p6, tid, name);
    lemma_named_of_concat(p1 + p2 + p3 + p4 + p5 + p6 + tid, peid, name);
    lemma_named_of_one(p1[0], name);
}

/// A request carries the credentials of the account, the text and the number,
/// each exactly once.
pub proof fn lemma_a_request_carries_the_message(
    config: ConfigView,
    message: MessageView,
    to: Seq<char>,
)
    ensures
        ({
            let pairs = request_pairs(config, message, to);
            &&& named(pairs, "username"@) == seq![("username"@, config.username)]
            &&& named(pairs, "apikey"@) == seq![("apikey"@, config.api_key)]
            &&& named(pairs, "text"@) == seq![("text"@, message.body)]
            &&& named(pairs, "mobile"@) == seq![("mobile"@, to)]
        }),
{
    lemma_each_name(config, message, to, "username"@, 0);
    lemma_each_name(config, message, to, "apikey"@, 1);
    lemma_each_name(config, message, to, "text"@, 4);
    lemma_each_name(config, message, to, "mobile"@, 5);
}

/// What a message sets wins over the account, and where neither sets a template
/// id none is sent. The sender, the route and a template id are sent exactly
/// once.
pub proof fn lemma_a_message_overrides_the_account(
    config: ConfigView,
    message: MessageView,
    to: Seq<char>,
)
    ensures
        ({
            let pairs = request_pairs(config, message, to);
            &&& message.sender_id matches Some(sender) ==> named(pairs, "senderid"@) == seq![
                ("senderid"@, sender),
            ]
            &&& message.sender_id is None ==> named(pairs, "senderid"@) == seq![
                ("senderid"@, config.sender_id),
            ]
            &&& message.route matches Some(route) ==> named(pairs, "route"@) == seq![
                ("route"@, route.text()),
            ]
            &&& message.route is None ==> named(pairs, "route"@) == seq![
                ("route"@, config.route.text()),
            ]
            &&& message.template_id matches Some(tid) ==> named(pairs, "TID"@) == seq![
                ("TID"@, tid),
            ]
            &&& message.template_id is None ==> (config.template_id matches Some(tid) ==> named(
                pairs,
                "TID"@,
            ) == seq![("TID"@, tid)])
            &&& message.template_id is None && config.template_id is None ==> named(
                pairs,
                "TID"@,
            ).len() == 0
        }),
{
    lemma_each_name(config, message, to, "senderid"@, 2);
    lemma_each_name(config, message, to, "route"@, 3);
    lemma_each_name(config, message, to, "TID"@, 6);
}

/// The entity id of the account is sent exactly once, and none where the account
/// has none.
pub proof fn lemma_a_request_carries_the_entity_id(
    config: ConfigView,
    message: MessageView,
    to: Seq<char>,
)
    ensures
        config.entity_id matches Some(peid) ==> named(
            request_pairs(config, message, to),
            "PEID"@,
        ) == seq![("PEID"@, peid)],
        config.entity_id is None ==> named(request_pairs(config, message, to), "PEID"@).len() == 0,
{
    lemma_each_name(config, message, to, "PEID"@, 7);
}

/// A request carries nothing but the eight parameters, and at least six of them.
pub proof fn lemma_a_request_carries_nothing_else(
    config: ConfigView,
    message: MessageView,
    to: Seq<char>,
    i: int,
)
    requires
        0 <= i < request_pairs(config, message, to).len(),
    ensures
        6 <= request_pairs(config, message, to).len() <= 8,
        ({
            let name = request_pairs(config, message, to)[i].0;
            name == "username"@ || name == "apikey"@ || name == "senderid"@ || name == "route"@
                || name == "text"@ || name == "mobile"@ || name == "TID"@ || name == "PEID"@
        }),
{
}

/// Which pair has the name at place `k` of the list of names.
proof fn lemma_each_name(
    config: ConfigView,
    message: MessageView,
    to: Seq<char>,
    name: Seq<char>,
    k: int,
)
    requires
        0 <= k < 8,
        name == (seq![
            "username"@,
            "apikey"@,
            "senderid"@,
            "route"@,
            "text"@,
            "mobile"@,
            "TID"@,
            "PEID"@,
        ])[k],
    ensures
        ({
            let template = match message.template_id {
                Some(tid) => Some(tid),
                None => config.template_id,
            };
            let found = named(request_pairs(config, message, to), name);
            &&& k == 0 ==> found == seq![("username"@, config.username)]
            &&& k == 1 ==> found == seq![("apikey"@, config.api_key)]
            &&& k == 2 ==> found == seq![("senderid"@, own_or(message.sender_id, config.sender_id))]
            &&& k == 3 ==> found == seq![("route"@, own_or(message.route, config.route).text())]
            &&& k == 4 ==> found == seq![("text"@, message.body)]
            &&& k == 5 ==> found == seq![("mobile"@, to)]
            &&& k == 6 ==> found == (match template {
                Some(tid) => seq![("TID"@, tid)],
                None => Seq::empty(),
            })
            &&& k == 7 ==> found == (match config.entity_id {
                Some(peid) => seq![("PEID"@, peid)],
                None => Seq::empty(),
            })
        }),
{
    let names = seq![
        "username"@,
        "apikey"@,
        "senderid"@,
        "route"@,
        "text"@,
        "mobile"@,
        "TID"@,
        "PEID"@,
    ];
    let template = match message.template_id {
        Some(tid) => Some(tid),
        None => config.template_id,
    };
    let found = named(request_pairs(config, message, to), name);
    lemma_names_differ();
    lemma_pairs_apart(config, message, to, name);
    lemma_named_of_one(("username"@, config.username), name);
    lemma_named_of_one(("apikey"@, config.api_key), name);
    lemma_named_of_one(("senderid"@, own_or(message.sender_id, config.sender_id)), name);
    lemma_named_of_one(("route"@, own_or(message.route, config.route).text()), name);
    lemma_named_of_one(("text"@, message.body), name);
    lemma_named_of_one(("mobile"@, to), name);
    if let Some(tid) = template {
        lemma_named_of_one(("TID"@, tid), name);
    }
    if let Some(peid) = config.entity_id {
        lemma_named_of_one(("PEID"@, peid), name);
    }
    assert(names[0] == "username"@ && names[1] == "apikey"@ && names[2] == "senderid"@ && names[3]
        == "route"@ && names[4] == "text"@ && names[5] == "mobile"@ && names[6] == "TID"@
        && names[7] == "PEID"@);
    assert(found =~= (if k == 0 {
        seq![("username"@, config.username)]
    } else if k == 1 {
        seq![("apikey"@, config.api_key)]
    } else if k == 2 {
        seq![("senderid"@, own_or(message.sender_id, config.sender_id))]
    } else if k == 3 {
        seq![("route"@, own_or(message.route, config.route).text())]
    } else if k == 4 {
        seq![("text"@, message.body)]
    } else if k == 5 {
        seq![("mobile"@, to)]
    } else if k == 6 {
        match template {
            Some(tid) => seq![("TID"@, tid)],
            None => Seq::empty(),
        }
    } else {
        match config.entity_id {
            Some(peid) => seq![("PEID"@, peid)],
            None => Seq::empty(),
        }
    }));
}

// ---------------------------------------------------------------------------
// Routes and accounts
// ---------------------------------------------------------------------------

/// The text is the one in capitals, or differs from it only in that some of its
/// letters are small.
pub open spec fn spells(s: Seq<char>, capitals: Seq<char>) -> bool {
    &&& s.len() == capitals.len()
    &&& forall|i: int|
        0 <= i < s.len() ==> (#[trigger] s[i] == capitals[i] || ('A' <= capitals[i] <= 'Z'
            && s[i] as u32 == capitals[i] as u32 + 32))
}

proof fn lemma_raised_spells(s: Seq<char>, capitals: Seq<char>)
    requires
        forall|i: int| 0 <= i < capitals.len() ==> 'A' <= #[trigger] capitals[i] <= 'Z',
    ensures
        raised(s) == capitals <==> spells(s, capitals),
{
    if spells(s, capitals) {
        assert forall|i: int| 0 <= i < s.len() implies raised(s)[i] == capitals[i] by {
            assert('A' <= capitals[i] <= 'Z');
            assert(s[i] == capitals[i] || s[i] as u32 == capitals[i] as u32 + 32);
        }
        assert(raised(s) =~= capitals);
    }
    if raised(s) == capitals {
        assert forall|i: int| 0 <= i < s.len() implies (#[trigger] s[i] == capitals[i] || (
        'A' <= capitals[i] <= 'Z' && s[i] as u32 == capitals[i] as u32 + 32)) by {
            assert(raised(s)[i] == capitals[i]);
        }
    }
}

/// A route is known by two names each, whatever the case of the letters, and any
/// other name is a route of its own, sent in capitals.
pub proof fn lemma_routes_by_name(s: Seq<char>)
    ensures
        route_named(s) is Transactional <==> spells(s, "TRANS"@) || spells(s, "TRANSACTIONAL"@),
        route_named(s) is Promotional <==> spells(s, "PROMO"@) || spells(s, "PROMOTIONAL"@),
        route_named(s) matches RouteView::Custom(name) ==> name.len() == s.len() && (forall|i: int|
            0 <= i < s.len() ==> (if 'a' <= s[i] <= 'z' {
                (#[trigger] name[i]) as u32 + 32 == s[i] as u32
            } else {
                name[i] == s[i]
            })),
        route_named(s) is Transactional ==> route_named(s).text() == "TRANS"@,
        route_named(s) is Promotional ==> route_named(s).text() == "PROMO"@,
        route_named(s) matches RouteView::Custom(name) ==> route_named(s).text() == name,
{
    reveal_strlit("TRANS");
    reveal_strlit("TRANSACTIONAL");
    reveal_strlit("PROMO");
    reveal_strlit("PROMOTIONAL");
    lemma_raised_spells(s, "TRANS"@);
    lemma_raised_spells(s, "TRANSACTIONAL"@);
    lemma_raised_spells(s, "PROMO"@);
    lemma_raised_spells(s, "PROMOTIONAL"@);
    assert("TRANS"@[0] != "PROMO"@[0]);
    assert("TRANSACTIONAL"@[0] == 'T' && "PROMOTIONAL"@[0] == 'P' && "TRANS"@[0] == 'T'
        && "PROMO"@[0] == 'P');
    if raised(s).len() > 0 {
        assert(raised(s) == "TRANS"@ ==> raised(s)[0] == 'T');
        assert(raised(s) == "TRANSACTIONAL"@ ==> raised(s)[0] == 'T');
    }
}

/// An account is usable exactly when its username, its API key, its sender id
/// and its route are more than white space. Otherwise the first of them that is
/// not, in this order, is named.
pub proof fn lemma_what_an_account_needs(config: ConfigView)
    ensures
        missing_field(config) is None <==> !(blank(config.username) || blank(config.api_key)
            || blank(config.sender_id) || blank(config.route.text())),
        missing_field(config) == Some("username"@) <== blank(config.username),
        missing_field(config) == Some("api_key"@) <== blank(config.api_key) && !blank(
            config.username,
        ),
        missing_field(config) == Some("sender_id"@) <== blank(config.sender_id) && !blank(
            config.api_key,
        ) && !blank(config.username),
        missing_field(config) == Some("route"@) <== blank(config.route.text()) && !blank(
            config.sender_id,
        ) && !blank(config.api_key) && !blank(config.username),
{
}

/// The endpoint that is called is the configured one without white space around
/// it, and the canonical host where nothing else is configured.
pub proof fn lemma_where_requests_go(
    config: ConfigView,
    before: Seq<char>,
    url: Seq<char>,
    after: Seq<char>,
)
    requires
        blank(before),
        blank(after),
        url.len() > 0 ==> !white_space(url[0]) && !white_space(url.last()),
        config.base_url == before + url + after,
    ensures
        url.len() > 0 ==> config.effective_base_url() == url,
        url.len() == 0 ==> config.effective_base_url() == "https://mdssend.in/api.php"@,
{
    lemma_trimmed_of_padded(before, url, after);
    lemma_trimmed_stays(url);
    lemma_blank_iff_trimmed_empty(config.base_url);
}

/// A client is called by the name it is given, or else by the host of its
/// endpoint; a failure to build one names the setting that is missing or the
/// URL that is none.
pub proof fn lemma_what_a_client_is_called(b: BuilderView, client: ClientView)
    requires
        built(b, client),
    ensures
        b.name matches Some(name) ==> client.name == name,
        b.name is None ==> (client.endpoint.host matches Some(host) ==> client.name == host),
        b.name is None && client.endpoint.host is None ==> client.name == "mds"@,
        client.config == b.config,
        client.retry == b.retry,
        client.http == b.http,
        client.concurrency == b.concurrency,
        client.slow_after == b.slow_after,
{
}

/// An account that lacks a setting gives no client but the error that names it.
pub proof fn lemma_why_no_client_is_built(config: ConfigView, e: Error)
    requires
        build_error(config, e),
    ensures
        e is MissingConfig || e is InvalidBaseUrl,
        blank(config.username) ==> (e matches Error::MissingConfig(field) && field@ == "username"@),
        e matches Error::InvalidBaseUrl { url, .. } ==> url@ == config.effective_base_url()
            && missing_field(config) is None,
        e is MissingConfig ==> missing_field(config) is Some,
{
}

/// The endpoint is named for logs by its host, with the port where that is not
/// the usual one, and by the name of the client where it has no host.
pub proof fn lemma_how_an_endpoint_is_named(client: ClientView)
    ensures
        client.endpoint.host is None ==> client.endpoint_label() == client.name,
        client.endpoint.host matches Some(host) ==> (client.endpoint.port is None
            ==> client.endpoint_label() == host),
        client.endpoint.host matches Some(host) ==> (client.endpoint.port matches Some(port)
            ==> client.endpoint_label() == host + seq![':'] + decimal(port as nat)),
        client.endpoint.host is None ==> client.endpoint.host_or(client.name) == client.name,
        client.endpoint.host matches Some(host) ==> client.endpoint.host_or(client.name) == host,
{
    reveal_strlit(":");
    assert(":"@ =~= seq![':']);
}

/// The URL of a request is the endpoint as it is configured, path, query and
/// fragment, with the pairs behind its query.
pub proof fn lemma_the_endpoint_is_kept_whole(endpoint: UrlView, pairs: Seq<Pair>)
    ensures
        ({
            let url = endpoint.request(pairs);
            let start = if endpoint.query.len() == 0 {
                endpoint.stem + seq!['?']
            } else {
                endpoint.stem + endpoint.query
            };
            &&& endpoint.query.len() == 0 || endpoint.query[0] == '?' ==> start.is_prefix_of(url)
            &&& endpoint.fragment.is_suffix_of(url)
        }),
{
    let url = endpoint.request(pairs);
    let own = endpoint.own_query();
    lemma_a_query_is_added_to(own, pairs);
    assert(url.skip(url.len() - endpoint.fragment.len()) =~= endpoint.fragment);
    if endpoint.query.len() == 0 {
        assert((endpoint.stem + seq!['?']).is_prefix_of(url));
    } else if endpoint.query[0] == '?' {
        let written = form_query(own, pairs);
        let start = endpoint.stem + endpoint.query;
        assert(endpoint.query =~= seq!['?'] + own);
        assert forall|i: int| 0 <= i < own.len() implies #[trigger] own[i] == written[i] by {
            assert(written.subrange(0, own.len() as int)[i] == own[i]);
        }
        assert(url.subrange(0, start.len() as int) =~= start);
    }
}

/// A request fits wherever its URL takes no more than four gigabytes.
pub proof fn lemma_what_fits_into_a_url(endpoint: UrlView, pairs: Seq<Pair>)
    requires
        endpoint.query.len() == 0 || endpoint.query[0] == '?',
        byte_len(endpoint.request(pairs)) <= 0xffff_ffff,
    ensures
        endpoint.has_room(pairs),
{
    let mark = seq!['?'];
    let own = endpoint.own_query();
    let query = endpoint.request_query(pairs);
    lemma_encode_concat(endpoint.stem, mark);
    lemma_encode_concat(endpoint.stem + mark, query);
    lemma_encode_concat(endpoint.stem + mark + query, endpoint.fragment);
    lemma_a_query_is_added_to(own, pairs);
    assert(query =~= own + query.skip(own.len() as int));
    lemma_encode_concat(own, query.skip(own.len() as int));
    assert(byte_len(mark) == 1) by {
        reveal_with_fuel(encode_utf8, 2);
        assert(mark.drop_first() =~= Seq::<char>::empty());
    }
    if endpoint.fragment.len() > 0 {
        assert(byte_len(endpoint.fragment) > 0);
        if endpoint.query.len() > 0 {
            assert(endpoint.query =~= mark + own);
            lemma_encode_concat(mark, own);
        } else {
            assert(byte_len(endpoint.query) == 0);
        }
    }
}

/// A message has room with a client unless its request is a URL of more than four
/// gigabytes. One whose body or number is refused needs none.
pub proof fn lemma_which_messages_have_room(client: ClientView, message: MessageView)
    requires
        client.endpoint.query.len() == 0 || client.endpoint.query[0] == '?',
    ensures
        body_fault(message.body) is Some ==> room_for(client, message),
        match normalized_number(client.config.default_country_code, message.to) {
            Ok(to) => byte_len(
                client.endpoint.request(request_pairs(client.config, message, to)),
            ) <= 0xffff_ffff ==> room_for(client, message),
            Err(_) => room_for(client, message),
        },
{
    if let Ok(to) = normalized_number(client.config.default_country_code, message.to) {
        let pairs = request_pairs(client.config, message, to);
        if byte_len(client.endpoint.request(pairs)) <= 0xffff_ffff {
            lemma_what_fits_into_a_url(client.endpoint, pairs);
        }
    }
}

/// Pairs are written behind a query that is there, which stays as it is.
pub proof fn lemma_a_query_is_added_to(query: Seq<char>, pairs: Seq<Pair>)
    ensures
        query.is_prefix_of(form_query(query, pairs)),
    decreases pairs.len(),
{
    if pairs.len() > 0 {
        let before = if query.len() > 0 {
            query.push('&')
        } else {
            query
        };
        let longer = before + form_pair(pairs[0]);
        let all = form_query(longer, pairs.drop_first());
        lemma_a_query_is_added_to(longer, pairs.drop_first());
        assert forall|i: int| 0 <= i < query.len() implies #[trigger] query[i] == all[i] by {
            assert(all.subrange(0, longer.len() as int)[i] == longer[i]);
        }
        assert(all.subrange(0, query.len() as int) =~= query);
    }
}

/// A pair more is written behind those before, with `&` between, as the name, `=`
/// and the value. Without pairs the query stays as it is.
pub proof fn lemma_how_pairs_are_joined(query: Seq<char>, pairs: Seq<Pair>, pair: Pair)
    ensures
        form_query(query, Seq::empty()) == query,
        ({
            let before = form_query(query, pairs);
            let written = form_text(pair.0) + seq!['='] + form_text(pair.1);
            form_query(query, pairs.push(pair)) == if before.len() == 0 {
                written
            } else {
                before + seq!['&'] + written
            }
        }),
    decreases pairs.len(),
{
    let all = pairs.push(pair);
    let written = form_text(pair.0) + seq!['='] + form_text(pair.1);
    if pairs.len() == 0 {
        reveal_with_fuel(form_query, 2);
        assert(all.drop_first() =~= Seq::<Pair>::empty());
        if query.len() == 0 {
            assert(query + written =~= written);
        } else {
            assert(query.push('&') + written =~= query + seq!['&'] + written);
        }
    } else {
        let before = if query.len() > 0 {
            query.push('&')
        } else {
            query
        };
        let longer = before + form_pair(pairs[0]);
        assert(all.drop_first() =~= pairs.drop_first().push(pair));
        lemma_how_pairs_are_joined(longer, pairs.drop_first(), pair);
    }
}

/// What a client does unless told otherwise.
pub proof fn lemma_what_a_client_does_by_default(b: BuilderView)
    requires
        default_builder(b),
    ensures
        b.config.base_url == "https://mdssend.in/api.php"@,
        b.config.username.len() == 0,
        b.config.api_key.len() == 0,
        b.config.sender_id.len() == 0,
        b.config.route == RouteView::Transactional,
        b.config.template_id is None,
        b.config.entity_id is None,
        b.config.default_country_code is None,
        b.name is None,
        b.concurrency == 16,
        b.retry.max_retries == 3,
        duration_nanos(b.retry.initial_backoff) == 200_000_000,
        duration_nanos(b.retry.max_backoff) == 5_000_000_000,
        b.retry.multiplier_pct == 200,
        b.retry.jitter_pct == 25,
        duration_nanos(b.slow_after) == 5_000_000_000,
        duration_nanos(b.http.timeout) == 20_000_000_000,
        duration_nanos(b.http.connect_timeout) == 10_000_000_000,
        duration_nanos(b.http.pool_idle_timeout) == 90_000_000_000,
        b.http.pool_max_idle_per_host == 16,
        b.http.user_agent == "mdsmedia-rs/0.1.0"@,
{
}

/// A client that is built from an account alone has that account, and does all
/// else as by default.
pub proof fn lemma_what_a_plain_client_does(config: ConfigView, client: ClientView)
    requires
        default_client(config, client),
    ensures
        client.config == config,
        client.concurrency == 16,
        client.retry.max_retries == 3,
        duration_nanos(client.retry.initial_backoff) == 200_000_000,
        duration_nanos(client.retry.max_backoff) == 5_000_000_000,
        client.retry.multiplier_pct == 200,
        client.retry.jitter_pct == 25,
        duration_nanos(client.slow_after) == 5_000_000_000,
        duration_nanos(client.http.timeout) == 20_000_000_000,
        duration_nanos(client.http.connect_timeout) == 10_000_000_000,
        duration_nanos(client.http.pool_idle_timeout) == 90_000_000_000,
        client.http.pool_max_idle_per_host == 16,
        client.http.user_agent == "mdsmedia-rs/0.1.0"@,
{
}

/// A variable is set: it holds more than white space.
pub open spec fn is_set(variable: Option<String>) -> bool {
    variable matches Some(v) && !blank(v@)
}

/// Each variable of the environment sets its own field, exactly as it is. The
/// three that are required are asked for in order, the others have defaults.
pub proof fn lemma_the_environment_sets_each_field(env: Settings)
    ensures
        !is_set(env.username) ==> environment_config(env) == Err::<ConfigView, Seq<char>>(
            "MDS_USERNAME"@,
        ),
        is_set(env.username) && !is_set(env.api_key) ==> environment_config(env) == Err::<
            ConfigView,
            Seq<char>,
        >("MDS_API_KEY"@),
        is_set(env.username) && is_set(env.api_key) && !is_set(env.sender_id)
            ==> environment_config(env) == Err::<ConfigView, Seq<char>>("MDS_SENDER_ID"@),
        is_set(env.username) && is_set(env.api_key) && is_set(env.sender_id) ==> (
        environment_config(env) matches Ok(config) && {
            &&& Some(config.username) == opt_text(env.username)
            &&& Some(config.api_key) == opt_text(env.api_key)
            &&& Some(config.sender_id) == opt_text(env.sender_id)
            &&& is_set(env.base_url) ==> Some(config.base_url) == opt_text(env.base_url)
            &&& !is_set(env.base_url) ==> config.base_url == "https://mdssend.in/api.php"@
            &&& is_set(env.route) ==> config.route == route_named(env.route->Some_0@)
            &&& !is_set(env.route) ==> config.route is Transactional
            &&& is_set(env.template_id) ==> config.template_id == opt_text(env.template_id)
            &&& !is_set(env.template_id) ==> config.template_id is None
            &&& is_set(env.entity_id) ==> config.entity_id == opt_text(env.entity_id)
            &&& !is_set(env.entity_id) ==> config.entity_id is None
            &&& is_set(env.country_code) ==> config.default_country_code == opt_text(
                env.country_code,
            )
            &&& !is_set(env.country_code) ==> config.default_country_code is None
        }),
{
}

} // verus!
