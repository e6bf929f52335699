//! # mdsmedia
//!
//! The logic of a client for the **MDS Media** (`mdssend.in`) SMS HTTP gateway:
//! the `api.php` endpoint used for OTP and transactional SMS in India, including
//! DLT `TID`/`PEID` parameters. Unofficial; not affiliated with MDS Media.
//!
//! Everything here is decided without touching the network, and every function
//! states in a contract what it returns. Verus proves the contracts, with the
//! exception of those it takes on trust: the wrappers around `url`, `serde_json`
//! and the formatting of std, and the assumed contracts of a few functions of
//! std. Each of these says in its doc comment what is believed of the code that
//! it calls.
//!
//! * [`config`]: accounts, routes, recipient numbers and the retry policy;
//! * [`message`]: messages, and templates with `{#var#}` placeholders;
//! * [`client`]: how a client is set up, and the request it makes of a message;
//! * [`endpoint`] and [`form`]: the request URL. A message body with `&`, `#` or
//!   `%` in it reaches the gateway as it is;
//! * [`response`] and [`json`]: what an answer of the gateway means. HTTP 200 is
//!   returned for `ERROR: Invalid API Key`, and a *successful* send reports
//!   `Total Invalid Numbers : 0`, which changes nothing ([`neutral`]);
//! * [`send`]: one send from the message to its outcome, with its retries;
//! * [`batch`]: many sends under a limit on how many are in flight;
//! * [`failover`]: one send along several providers;
//! * [`observer`] and [`error`]: what is reported meanwhile, and what can fail;
//! * [`cli`] and [`output`]: what the command-line tool reads and prints;
//! * [`text`], [`search`], [`bytes`], [`decimal`] and [`duration`]: the models of
//!   text and time that the contracts are stated over.
//!
//! The laws of these, what callers may rely on whatever the code looks like, are
//! proved beside them: [`numbers`] of recipients, [`requests`] of accounts and what
//! they send, [`answers`] of the gateway, [`delays`] between requests, [`inputs`]
//! and [`prints`] of the tool.
//!
//! A program that sends messages issues the requests, waits for the delays and
//! hands the outcomes back; it decides nothing.

pub mod answers;
pub mod batch;
pub mod bytes;
pub mod cli;
pub mod client;
pub mod config;
pub mod decimal;
pub mod delays;
pub mod duration;
pub mod endpoint;
pub mod error;
pub mod failover;
pub mod form;
pub mod inputs;
pub mod json;
pub mod message;
pub mod neutral;
pub mod numbers;
pub mod observer;
pub mod output;
pub mod prints;
pub mod requests;
pub mod response;
pub mod search;
pub mod send;
pub mod text;

pub use batch::{batch_item, Batch};
pub use client::{BatchItem, HttpSettings, MdsClient, MdsClientBuilder};
pub use config::{Config, RetryPolicy, Route, Settings, DEFAULT_BASE_URL};
pub use error::{Error, ProviderFailure, Result, TransportFault};
pub use failover::{FailoverClient, Hop, Relay};
pub use message::{Message, Template, MAX_BODY_LEN, VAR};
pub use observer::Event;
pub use response::Response;
pub use send::{Phase, Reply, Step, Submission};
