# mdsmedia

The logic of a client for the MDS Media (`mdssend.in`) SMS HTTP gateway, written
in Verus: every function states in a contract what it returns, and Verus proves
it. What Verus believes without proof are the contracts of the wrappers around
`url`, `serde_json` and the formatting of std (`read_url`, `add_params`,
`read_json`, `quote`, `write_span`) and the assumed contracts of `String::push`
and three functions of `Duration`. Unofficial; not affiliated with, endorsed by,
or supported by MDS Media.

* `src/` is the verified library. It normalizes recipient numbers, renders DLT
  templates, builds the request URL, reads the gateway's answers, and decides on
  retries, batches and failover. It does no I/O.
* `app/` is the command-line tool around it: it reads files and the environment,
  issues the HTTP requests, waits for the delays that the library asks for, and
  prints the lines that the library writes.
* `tests/` runs the library against scripted gateways.

What the library promises as a whole is stated in the public proof functions at
the end of the modules, among them:

* the gateway reads from a request exactly what was put into it, whatever
  characters a message holds (`form`, `client`);
* each value goes into the placeholder of its place, and what a value holds is
  never taken for a placeholder (`message`);
* a message id is never made up (`response`), and a failure counter that reads
  zero changes nothing in what an answer says (`neutral`);
* a rejection is never retried, a send issues at most one request more than it
  has retries, and it reports each attempt, each retry and then one outcome, all
  under the name of its client (`send`);
* no delay is longer than `max_backoff`, jitter included (`config`);
* a batch keeps its limit and returns one outcome per message, in input order,
  whatever order the sends come to their end in (`batch`);
* providers are asked in order and at most once, the error names all that were
  asked, and a message that all would refuse is not passed on (`failover`);
* the API key shows in the request and nowhere else (`send`, `output`).
