# blackholed

A DNS server that answers blocked names with NXDOMAIN, fed by blocklists and
allowlists that it loads from URLs, list directories or a management API, with a
small web interface.

- `src/` is the verified library (Verus): list parsing, domain and source-id
  validation, the blocklist's decisions (exact and wildcard entries, allow over
  block, pauses), the reconciliation of list directories with stored sources,
  page tokens, store keys, SQL batching, notification payloads and the request
  checks of the API and web pages. Each public function states its result in its
  contract; the laws that relate several functions are public proof functions.
- `tests/` runs the library on concrete values.
- `app/` is the daemon around it: configuration file, SQL database, Redis event
  store and pub/sub, the hickory DNS server, the HTTP server, file watching and
  downloads.
