# openshell

Verified core of the Navigator gateway and the OpenShell sandbox supervisor,
written in Verus.

- `src/` — the verified library:
  - `calendar` — days since the epoch to a Gregorian date, with the proof
    that the date is valid, unique and denotes the given day.
  - `syslog` — level filtering, CEF escaping and message layout, RFC 3339
    timestamps, octet-count framing, reconnect back-off, CA loading.
  - `aggregator` — merging proxy allow events into summaries and the
    decisions of the aggregation loop.
  - `tether` — Tether reports, last-known verdict, enforcement actions and
    configuration from policy and environment.
  - `multiplex` — routing of gRPC and HTTP requests on one port.
  - `config`, `server` — server configuration and start-up checks.
  - `text` — decimal rendering, parsing, case folding and trimming.
- `app/` — the runtime around it: tokio tasks, sockets and TLS, the HTTP
  client, the hyper service, serde copies of the configuration.
- `tests/` — tests of the library.
